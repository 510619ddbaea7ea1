//! The speculative execution engine on concrete blocks: independent
//! transfers, sender chains, token transfers, destroyed code, fund
//! shortfalls and state clearing.

use pevm::db::{AccountInfoL, LazyStrategy, VmDb};
use pevm::keccak::get_erc20_balance_slot;
use pevm::laws::resolve_basic;
use pevm::mv_memory::MvMemory;
use pevm::primitives::{BlockEnv, OptimismFields, SpecId, TxEnv};
use pevm::storage::{InMemoryAccount, InMemoryStorage, Storage};
use pevm::types::{
    AccountBasic, Address, MemoryEntry, MemoryLocation, MemoryValue, ReadError, TxVersion,
};
use pevm::uint::U256;
use pevm::vm::{
    EvmAccountL, EvmOutput, ExecutionError, PevmTxExecutionResult, RewardPolicy, SlotChange,
    TxError, Vm, VmExecutionResult,
};

fn addr(n: u128) -> Address {
    Address { hi: 0, lo: n }
}

fn u(v: u128) -> U256 {
    U256 { hi: 0, lo: v }
}

fn plain_account(balance: u128, nonce: u64) -> InMemoryAccount {
    InMemoryAccount {
        balance: u(balance),
        nonce,
        code_hash: None,
        code: Vec::new(),
        storage: Vec::new(),
    }
}

fn transfer_tx(from: Address, to: Address, value: u128, nonce: u64) -> TxEnv {
    TxEnv {
        caller: from,
        gas_limit: 21000,
        gas_price: u(0),
        gas_priority_fee: None,
        transact_to: Some(to),
        value: u(value),
        data: Vec::new(),
        nonce: Some(nonce),
        chain_id: Some(1),
        access_list: Vec::new(),
        blob_hashes: Vec::new(),
        max_fee_per_blob_gas: None,
        optimism: OptimismFields {
            source_hash: None,
            mint: None,
            is_system_transaction: None,
            enveloped_tx: None,
        },
    }
}

fn block_env(coinbase: Address) -> BlockEnv {
    BlockEnv {
        number: 1,
        coinbase,
        timestamp: 1,
        gas_limit: 30_000_000,
        basefee: 0,
        difficulty: u(0),
        prevrandao: None,
        excess_blob_gas: None,
    }
}

fn touched_account(balance: u128, nonce: u64) -> EvmAccountL {
    EvmAccountL {
        balance: u(balance),
        nonce,
        code_hash: None,
        code: None,
        selfdestructed: false,
        touched: true,
        storage_changes: Vec::new(),
    }
}

fn make_vm(coinbase: Address, txs: Vec<TxEnv>) -> Vm {
    Vm::new(SpecId::LONDON, block_env(coinbase), txs, 1, RewardPolicy::Ethereum)
}

fn log_at(mv: &MvMemory, loc: &MemoryLocation) -> Vec<(usize, MemoryEntry)> {
    mv.log_entries(loc).cloned().unwrap_or_default()
}

#[test]
fn two_independent_transfers() {
    let a = addr(0xA);
    let b = addr(0xB);
    let c = addr(0xC);
    let d = addr(0xD);
    let coinbase = addr(0xFEE);
    let sto = InMemoryStorage {
        accounts: vec![
            (a, plain_account(100, 0)),
            (b, plain_account(50, 0)),
            (c, plain_account(100, 0)),
        ],
        block_hashes: Vec::new(),
    };
    let vm = make_vm(coinbase, vec![transfer_tx(a, b, 10, 0), transfer_tx(c, d, 5, 0)]);
    let mut mv = MvMemory::new(2, Vec::new(), Vec::new());

    // first transfer
    let mut db0 = vm.build_db(&mv, &sto, 0).unwrap();
    assert!(matches!(db0.lazy_strategy, LazyStrategy::Direct));
    let ia = db0.basic(&mv, &sto, a).unwrap().unwrap();
    assert_eq!(ia.balance, u(100));
    assert_eq!(ia.nonce, 0);
    db0.basic(&mv, &sto, b).unwrap().unwrap();
    let out0 = EvmOutput {
        success: true,
        gas_used: 21000,
        logs: Vec::new(),
        state: vec![(a, touched_account(90, 1)), (b, touched_account(60, 0))],
    };
    let r0 = vm.finish_execution(&mut mv, db0, &TxVersion { tx_idx: 0, tx_incarnation: 0 }, Ok(out0));
    let wrote0 = match r0 {
        VmExecutionResult::Success { wrote_new_location, next_validation_idx, .. } => {
            assert_eq!(next_validation_idx, 0);
            wrote_new_location
        },
        _ => panic!("first transfer did not commit"),
    };
    assert!(wrote0);

    // second transfer; the recipient is an absent account
    let mut db1 = vm.build_db(&mv, &sto, 1).unwrap();
    db1.basic(&mv, &sto, c).unwrap().unwrap();
    assert!(db1.basic(&mv, &sto, d).unwrap().is_none());
    let out1 = EvmOutput {
        success: true,
        gas_used: 21000,
        logs: Vec::new(),
        state: vec![(c, touched_account(95, 1)), (d, touched_account(5, 0))],
    };
    let r1 = vm.finish_execution(&mut mv, db1, &TxVersion { tx_idx: 1, tx_incarnation: 0 }, Ok(out1));
    let wrote1 = match r1 {
        VmExecutionResult::Success { wrote_new_location, .. } => wrote_new_location,
        _ => panic!("second transfer did not commit"),
    };
    assert!(wrote1);

    // four concrete basic entries stand in the log
    for (who, balance, nonce) in [(a, 90u128, 1u64), (b, 60, 0), (c, 95, 1), (d, 5, 0)] {
        let log = log_at(&mv, &MemoryLocation::Basic(who));
        assert_eq!(log.len(), 1);
        match &log[0].1 {
            MemoryEntry::Data(0, MemoryValue::Basic(basic)) => {
                assert_eq!(basic.balance, u(balance));
                assert_eq!(basic.nonce, nonce);
            },
            other => panic!("unexpected entry {:?}", other),
        }
    }
}

#[test]
fn sender_chain_blocks_then_succeeds() {
    let a = addr(0xA);
    let b = addr(0xB);
    let c = addr(0xC);
    let sto = InMemoryStorage {
        accounts: vec![(a, plain_account(100, 0))],
        block_hashes: Vec::new(),
    };
    let vm = make_vm(addr(0xFEE), vec![transfer_tx(a, b, 10, 0), transfer_tx(a, c, 5, 1)]);
    let mut mv = MvMemory::new(2, Vec::new(), Vec::new());

    // the second transfer speculates against pre-block state and finds
    // the sender's nonce still unbumped: it blocks on its predecessor
    let mut db1 = vm.build_db(&mv, &sto, 1).unwrap();
    assert_eq!(db1.basic(&mv, &sto, a), Err(ReadError::BlockingIndex(0)));

    // the first transfer commits
    let mut db0 = vm.build_db(&mv, &sto, 0).unwrap();
    db0.basic(&mv, &sto, a).unwrap().unwrap();
    let out0 = EvmOutput {
        success: true,
        gas_used: 21000,
        logs: Vec::new(),
        state: vec![(a, touched_account(90, 1)), (b, touched_account(10, 0))],
    };
    assert!(matches!(
        vm.finish_execution(&mut mv, db0, &TxVersion { tx_idx: 0, tx_incarnation: 0 }, Ok(out0)),
        VmExecutionResult::Success { .. }
    ));

    // the second transfer re-executes: the sender now lives in the log,
    // so the raw-transfer fast path answers it with the sentinel
    let mut db1 = vm.build_db(&mv, &sto, 1).unwrap();
    assert!(matches!(db1.lazy_strategy, LazyStrategy::RawTransfer));
    let ia = db1.basic(&mv, &sto, a).unwrap().unwrap();
    assert_eq!(ia.nonce, 1);
    assert_eq!(ia.balance, U256::max_value());
    assert!(db1.basic(&mv, &sto, c).unwrap().is_none());
    let mut sender_after = touched_account(0, 2);
    sender_after.balance = U256::max_value().wrapping_sub(u(5));
    let out1 = EvmOutput {
        success: true,
        gas_used: 21000,
        logs: Vec::new(),
        state: vec![(a, sender_after), (c, touched_account(5, 0))],
    };
    assert!(matches!(
        vm.finish_execution(&mut mv, db1, &TxVersion { tx_idx: 1, tx_incarnation: 0 }, Ok(out1)),
        VmExecutionResult::Success { .. }
    ));

    // the sender's final state: both values paid, two nonce bumps
    let log = log_at(&mv, &MemoryLocation::Basic(a));
    assert!(matches!(
        log[1].1,
        MemoryEntry::Data(0, MemoryValue::LazySender(d)) if d == u(5)
    ));
    let resolved = resolve_basic(&log, AccountBasic { balance: u(100), nonce: 0 }).unwrap();
    assert_eq!(resolved.balance, u(85));
    assert_eq!(resolved.nonce, 2);
    let log_c = log_at(&mv, &MemoryLocation::Basic(c));
    let resolved_c = resolve_basic(&log_c, AccountBasic { balance: u(0), nonce: 0 }).unwrap();
    assert_eq!(resolved_c.balance, u(5));
}

#[test]
fn repeated_read_from_changed_origin_is_inconsistent() {
    let a = addr(0xA);
    let x = addr(0x99);
    let sto = InMemoryStorage {
        accounts: vec![(a, plain_account(100, 0))],
        block_hashes: Vec::new(),
    };
    let vm = make_vm(addr(0xFEE), vec![transfer_tx(a, addr(0xB), 10, 0), transfer_tx(x, addr(0xB), 1, 0)]);
    let mut mv = MvMemory::new(2, Vec::new(), Vec::new());

    // an unrelated transaction reads the sender's account from storage
    let mut db1 = vm.build_db(&mv, &sto, 1).unwrap();
    db1.basic(&mv, &sto, a).unwrap().unwrap();

    // the first transaction then commits a write to that account
    let mut db0 = vm.build_db(&mv, &sto, 0).unwrap();
    db0.basic(&mv, &sto, a).unwrap().unwrap();
    let out0 = EvmOutput {
        success: true,
        gas_used: 21000,
        logs: Vec::new(),
        state: vec![(a, touched_account(90, 1))],
    };
    assert!(matches!(
        vm.finish_execution(&mut mv, db0, &TxVersion { tx_idx: 0, tx_incarnation: 0 }, Ok(out0)),
        VmExecutionResult::Success { .. }
    ));

    // replaying the read now resolves from the log, not storage
    assert_eq!(db1.basic(&mv, &sto, a), Err(ReadError::InconsistentRead));
}

#[test]
fn raw_transfer_lazy_paths_and_sums() {
    let a = addr(0xA);
    let b = addr(0xB);
    let sto = InMemoryStorage {
        accounts: vec![(a, plain_account(100, 0)), (b, plain_account(50, 0))],
        block_hashes: Vec::new(),
    };
    let vm = make_vm(addr(0xFEE), vec![transfer_tx(a, b, 10, 0)]);
    // a pre-seeded tombstone for the sender promotes the lazy fast path
    let mut mv = MvMemory::new(
        1,
        vec![(MemoryLocation::Basic(a), vec![0usize])],
        Vec::new(),
    );
    let mut db0 = vm.build_db(&mv, &sto, 0).unwrap();
    assert!(matches!(db0.lazy_strategy, LazyStrategy::RawTransfer));

    // the sender is answered with the sentinel, the recipient with no
    // account, without touching the log or storage
    let ia = db0.basic(&mv, &sto, a).unwrap().unwrap();
    assert_eq!(ia.balance, U256::max_value());
    assert_eq!(ia.nonce, 0);
    assert!(ia.code_hash.is_none());
    assert!(db0.basic(&mv, &sto, b).unwrap().is_none());
    assert_eq!(db0.read_set.len(), 1); // only the recipient's code hash

    // the evaluator saw the sentinel balance less the transferred value
    let mut sent = touched_account(0, 1);
    sent.balance = U256::max_value().wrapping_sub(u(10));
    let out0 = EvmOutput {
        success: true,
        gas_used: 21000,
        logs: Vec::new(),
        state: vec![(a, sent), (b, touched_account(10, 0))],
    };
    let r = vm.finish_execution(&mut mv, db0, &TxVersion { tx_idx: 0, tx_incarnation: 0 }, Ok(out0));
    match r {
        VmExecutionResult::Success { next_validation_idx, .. } => {
            // lazy commits force validation to restart from the block's start
            assert_eq!(next_validation_idx, 0);
        },
        _ => panic!("lazy transfer did not commit"),
    }

    let log_a = log_at(&mv, &MemoryLocation::Basic(a));
    assert!(matches!(
        log_a[0].1,
        MemoryEntry::Data(0, MemoryValue::LazySender(d)) if d == u(10)
    ));
    let log_b = log_at(&mv, &MemoryLocation::Basic(b));
    assert!(matches!(
        log_b[0].1,
        MemoryEntry::Data(0, MemoryValue::LazyRecipient(d)) if d == u(10)
    ));
    assert!(mv.lazy_locations.contains(&MemoryLocation::Basic(a)));
    assert!(mv.lazy_locations.contains(&MemoryLocation::Basic(b)));

    // the lazy sum law on the concrete logs: pre minus the subtraction,
    // one nonce bump for the sender
    let ra = resolve_basic(&log_a, AccountBasic { balance: u(100), nonce: 0 }).unwrap();
    assert_eq!(ra.balance, u(90));
    assert_eq!(ra.nonce, 1);
    let rb = resolve_basic(&log_b, AccountBasic { balance: u(50), nonce: 0 }).unwrap();
    assert_eq!(rb.balance, u(60));
    assert_eq!(rb.nonce, 0);
}

#[test]
fn erc20_transfer_deltas_and_resolution() {
    let x = addr(0xAA);
    let y = addr(0xBB);
    let token = addr(0x70);
    let slot_x = get_erc20_balance_slot(x);
    let slot_y = get_erc20_balance_slot(y);
    let token_code_hash = u(0x1234);
    let sto = InMemoryStorage {
        accounts: vec![
            (x, plain_account(100, 0)),
            (
                token,
                InMemoryAccount {
                    balance: u(0),
                    nonce: 1,
                    code_hash: Some(token_code_hash),
                    code: vec![0x60, 0x80],
                    storage: vec![(slot_x, u(500)), (slot_y, u(100))],
                },
            ),
        ],
        block_hashes: Vec::new(),
    };
    // transfer(address,uint256): selector, padded recipient, amount 100
    let mut input = vec![0xa9, 0x05, 0x9c, 0xbb];
    input.extend_from_slice(&[0u8; 12]);
    let mut ybytes = Vec::new();
    y.push_be_bytes(&mut ybytes);
    input.extend_from_slice(&ybytes);
    let mut amount = Vec::new();
    u(100).push_be_bytes(&mut amount);
    input.extend_from_slice(&amount);
    assert_eq!(input.len(), 68);

    let mut tx = transfer_tx(x, token, 0, 0);
    tx.data = input;
    let vm = make_vm(addr(0xFEE), vec![tx, transfer_tx(addr(0x99), addr(0x98), 0, 0)]);
    let mut mv = MvMemory::new(2, Vec::new(), Vec::new());

    let mut db0 = vm.build_db(&mv, &sto, 0).unwrap();
    match &db0.lazy_strategy {
        LazyStrategy::ERC20Transfer { sender_balance_slot, recipient_balance_slot, amount } => {
            assert_eq!(*sender_balance_slot, slot_x);
            assert_eq!(*recipient_balance_slot, slot_y);
            assert_eq!(*amount, u(100));
        },
        other => panic!("unexpected strategy {:?}", other),
    }

    // the evaluator reads the token account and both balance slots
    db0.basic(&mv, &sto, token).unwrap().unwrap();
    assert_eq!(db0.storage(&mv, &sto, token, slot_x), Ok(u(500)));
    assert_eq!(db0.storage(&mv, &sto, token, slot_y), Ok(u(100)));

    let token_after = EvmAccountL {
        balance: u(0),
        nonce: 1,
        code_hash: Some(token_code_hash),
        code: Some(vec![0x60, 0x80]),
        selfdestructed: false,
        touched: true,
        storage_changes: vec![
            (slot_x, SlotChange { original: u(500), present: u(400) }),
            (slot_y, SlotChange { original: u(100), present: u(200) }),
        ],
    };
    let out = EvmOutput {
        success: true,
        gas_used: 40000,
        logs: Vec::new(),
        state: vec![(token, token_after)],
    };
    let r = vm.finish_execution(&mut mv, db0, &TxVersion { tx_idx: 0, tx_incarnation: 0 }, Ok(out));
    match r {
        VmExecutionResult::Success { next_validation_idx, .. } => {
            assert_eq!(next_validation_idx, 0)
        },
        _ => panic!("token transfer did not commit"),
    }

    // the two slot writes were re-expressed as pending deltas
    let lx = log_at(&mv, &MemoryLocation::Storage(token, slot_x));
    assert!(matches!(
        lx[0].1,
        MemoryEntry::Data(0, MemoryValue::ERC20TransferSender(d)) if d == u(100)
    ));
    let ly = log_at(&mv, &MemoryLocation::Storage(token, slot_y));
    assert!(matches!(
        ly[0].1,
        MemoryEntry::Data(0, MemoryValue::ERC20TransferRecipient(d)) if d == u(100)
    ));

    // a later reader resolves the slots to the transferred balances
    let mut db1 = vm.build_db(&mv, &sto, 1).unwrap();
    assert_eq!(db1.storage(&mv, &sto, token, slot_x), Ok(u(400)));
    assert_eq!(db1.storage(&mv, &sto, token, slot_y), Ok(u(200)));
}

#[test]
fn destroyed_code_escalates_to_sequential() {
    let caller = addr(0xA);
    let contract = addr(0xC0);
    let sto = InMemoryStorage {
        accounts: vec![(caller, plain_account(100, 0))],
        block_hashes: Vec::new(),
    };
    let vm = make_vm(addr(0xFEE), vec![transfer_tx(caller, contract, 0, 0), transfer_tx(caller, contract, 0, 1)]);
    let mut mv = MvMemory::new(2, Vec::new(), Vec::new());

    // the first call destroys the contract
    let db0 = vm.build_db(&mv, &sto, 0).unwrap();
    let destroyed = EvmAccountL {
        balance: u(0),
        nonce: 0,
        code_hash: None,
        code: None,
        selfdestructed: true,
        touched: true,
        storage_changes: Vec::new(),
    };
    let out0 = EvmOutput {
        success: true,
        gas_used: 30000,
        logs: Vec::new(),
        state: vec![(contract, destroyed)],
    };
    assert!(matches!(
        vm.finish_execution(&mut mv, db0, &TxVersion { tx_idx: 0, tx_incarnation: 0 }, Ok(out0)),
        VmExecutionResult::Success { .. }
    ));
    let lc = log_at(&mv, &MemoryLocation::CodeHash(contract));
    assert!(matches!(lc[0].1, MemoryEntry::Data(0, MemoryValue::SelfDestructed)));

    // the second call observes the tombstoned code while building its
    // read state and escalates
    assert_eq!(
        vm.build_db(&mv, &sto, 1).err(),
        Some(ReadError::SelfDestructedAccount)
    );
    // at the executor level, the same observation serializes the block
    let db1 = VmDb::new(&mv, &sto, 1, 1, caller, None, &Vec::new()).unwrap();
    assert!(matches!(
        vm.finish_execution(
            &mut mv,
            db1,
            &TxVersion { tx_idx: 1, tx_incarnation: 0 },
            Err(ExecutionError::Database(ReadError::SelfDestructedAccount)),
        ),
        VmExecutionResult::FallbackToSequential
    ));
}

#[test]
fn fund_shortfall_retries_on_predecessor() {
    let a = addr(0xA);
    let b = addr(0xB);
    let sto = InMemoryStorage {
        accounts: vec![(b, plain_account(100, 0))],
        block_hashes: Vec::new(),
    };
    let vm = make_vm(addr(0xFEE), vec![transfer_tx(b, a, 50, 0), transfer_tx(a, b, 20, 0)]);
    let mut mv = MvMemory::new(2, Vec::new(), Vec::new());

    // the second transaction fails for lack of funds while its funding
    // predecessor is uncommitted: it waits on it
    let db1 = vm.build_db(&mv, &sto, 1).unwrap();
    let r = vm.finish_execution(
        &mut mv,
        db1,
        &TxVersion { tx_idx: 1, tx_incarnation: 0 },
        Err(ExecutionError::Transaction(TxError::LackOfFundForMaxFee)),
    );
    assert!(matches!(r, VmExecutionResult::ReadError { blocking_tx_idx: 0 }));

    // the first transaction would fail outright: nothing is below it
    let db0 = vm.build_db(&mv, &sto, 0).unwrap();
    let r0 = vm.finish_execution(
        &mut mv,
        db0,
        &TxVersion { tx_idx: 0, tx_incarnation: 0 },
        Err(ExecutionError::Transaction(TxError::LackOfFundForMaxFee)),
    );
    assert!(matches!(
        r0,
        VmExecutionResult::ExecutionError(ExecutionError::Transaction(
            TxError::LackOfFundForMaxFee
        ))
    ));

    // an inconsistent read retries in place
    let db0b = vm.build_db(&mv, &sto, 0).unwrap();
    assert!(matches!(
        vm.finish_execution(
            &mut mv,
            db0b,
            &TxVersion { tx_idx: 0, tx_incarnation: 0 },
            Err(ExecutionError::Database(ReadError::InconsistentRead)),
        ),
        VmExecutionResult::Retry
    ));

    // once the funding transfer commits, the retry succeeds
    let mut db0c = vm.build_db(&mv, &sto, 0).unwrap();
    db0c.basic(&mv, &sto, b).unwrap().unwrap();
    let out0 = EvmOutput {
        success: true,
        gas_used: 21000,
        logs: Vec::new(),
        state: vec![(b, touched_account(50, 1)), (a, touched_account(50, 0))],
    };
    assert!(matches!(
        vm.finish_execution(&mut mv, db0c, &TxVersion { tx_idx: 0, tx_incarnation: 0 }, Ok(out0)),
        VmExecutionResult::Success { .. }
    ));
    let mut db1b = vm.build_db(&mv, &sto, 1).unwrap();
    // the sender now lives in the log: the lazy fast path answers it
    assert!(matches!(db1b.lazy_strategy, LazyStrategy::RawTransfer));
    let ia = db1b.basic(&mv, &sto, a).unwrap().unwrap();
    assert_eq!(ia.balance, U256::max_value());
    let mut sender_after = touched_account(0, 1);
    sender_after.balance = U256::max_value().wrapping_sub(u(20));
    let out1 = EvmOutput {
        success: true,
        gas_used: 21000,
        logs: Vec::new(),
        state: vec![(a, sender_after), (b, touched_account(70, 1))],
    };
    assert!(matches!(
        vm.finish_execution(&mut mv, db1b, &TxVersion { tx_idx: 1, tx_incarnation: 0 }, Ok(out1)),
        VmExecutionResult::Success { .. }
    ));
    // the sender's log resolves to the funded transfer applied
    let log_a = log_at(&mv, &MemoryLocation::Basic(a));
    let ra = resolve_basic(&log_a, AccountBasic { balance: u(0), nonce: 0 }).unwrap();
    assert_eq!(ra.balance, u(30));
    assert_eq!(ra.nonce, 1);
}

#[test]
fn empty_account_is_pruned_after_state_clearing() {
    let e = addr(0xE);
    let f = addr(0xF);
    let empty = EvmAccountL {
        balance: u(0),
        nonce: 0,
        code_hash: None,
        code: None,
        selfdestructed: false,
        touched: true,
        storage_changes: Vec::new(),
    };
    let out = EvmOutput {
        success: true,
        gas_used: 21000,
        logs: Vec::new(),
        state: vec![(e, empty.clone()), (f, touched_account(5, 0))],
    };
    let r = PevmTxExecutionResult::from_revm(SpecId::SPURIOUS_DRAGON, out);
    assert_eq!(r.receipt.status, true);
    assert_eq!(r.receipt.cumulative_gas_used, 21000);
    assert_eq!(r.state.len(), 2);
    assert_eq!(r.state[0].0, e);
    assert!(r.state[0].1.is_none());
    assert!(r.state[1].1.is_some());

    // before the state-clearing fork the empty account survives
    let out2 = EvmOutput {
        success: true,
        gas_used: 21000,
        logs: Vec::new(),
        state: vec![(e, empty)],
    };
    let r2 = PevmTxExecutionResult::from_revm(SpecId::HOMESTEAD, out2);
    assert!(r2.state[0].1.is_some());

    // untouched accounts drop out entirely
    let mut untouched = touched_account(5, 0);
    untouched.touched = false;
    let out3 = EvmOutput {
        success: true,
        gas_used: 21000,
        logs: Vec::new(),
        state: vec![(f, untouched)],
    };
    assert_eq!(PevmTxExecutionResult::from_revm(SpecId::LONDON, out3).state.len(), 0);
}

#[test]
fn aborted_writer_blocks_its_readers() {
    let a = addr(0xA);
    let b = addr(0xB);
    let x = addr(0x99);
    let sto = InMemoryStorage {
        accounts: vec![(a, plain_account(100, 0))],
        block_hashes: Vec::new(),
    };
    let vm = make_vm(addr(0xFEE), vec![transfer_tx(a, b, 10, 0), transfer_tx(x, b, 0, 0)]);
    let mut mv = MvMemory::new(2, Vec::new(), Vec::new());

    let mut db0 = vm.build_db(&mv, &sto, 0).unwrap();
    db0.basic(&mv, &sto, a).unwrap().unwrap();
    let out0 = EvmOutput {
        success: true,
        gas_used: 21000,
        logs: Vec::new(),
        state: vec![(a, touched_account(90, 1))],
    };
    assert!(matches!(
        vm.finish_execution(&mut mv, db0, &TxVersion { tx_idx: 0, tx_incarnation: 0 }, Ok(out0)),
        VmExecutionResult::Success { .. }
    ));

    // aborting the writer turns its entries into tombstones
    mv.mark_estimate(0);
    let log = log_at(&mv, &MemoryLocation::Basic(a));
    assert!(matches!(log[0].1, MemoryEntry::Estimate));

    // a later reader of the account must now block on the writer
    let mut db1 = vm.build_db(&mv, &sto, 1).unwrap();
    assert_eq!(db1.basic(&mv, &sto, a), Err(ReadError::BlockingIndex(0)));
}

#[test]
fn reincarnation_drops_stale_entries() {
    let a = addr(0xA);
    let b = addr(0xB);
    let c = addr(0xC);
    let d = addr(0xD);
    let sto = InMemoryStorage {
        accounts: vec![
            (a, plain_account(100, 0)),
            // a recipient with code keeps the re-execution off the lazy path
            (
                b,
                InMemoryAccount {
                    balance: u(0),
                    nonce: 1,
                    code_hash: Some(u(0x55)),
                    code: vec![1],
                    storage: Vec::new(),
                },
            ),
        ],
        block_hashes: Vec::new(),
    };
    let vm = make_vm(addr(0xFEE), vec![transfer_tx(a, b, 10, 0)]);
    let mut mv = MvMemory::new(1, Vec::new(), Vec::new());

    // the first incarnation writes the sender and one recipient
    let mut db0 = vm.build_db(&mv, &sto, 0).unwrap();
    db0.basic(&mv, &sto, a).unwrap().unwrap();
    let out0 = EvmOutput {
        success: true,
        gas_used: 21000,
        logs: Vec::new(),
        state: vec![(a, touched_account(90, 1)), (c, touched_account(10, 0))],
    };
    assert!(matches!(
        vm.finish_execution(&mut mv, db0, &TxVersion { tx_idx: 0, tx_incarnation: 0 }, Ok(out0)),
        VmExecutionResult::Success { .. }
    ));
    assert_eq!(log_at(&mv, &MemoryLocation::Basic(c)).len(), 1);

    // its abort and re-execution write a different recipient: the stale
    // entry disappears and the new one carries the next incarnation
    mv.mark_estimate(0);
    let mut db0b = vm.build_db(&mv, &sto, 0).unwrap();
    // the sender's own tombstone is invisible to its author
    db0b.basic(&mv, &sto, a).unwrap().unwrap();
    let out0b = EvmOutput {
        success: true,
        gas_used: 21000,
        logs: Vec::new(),
        state: vec![(a, touched_account(90, 1)), (d, touched_account(10, 0))],
    };
    assert!(matches!(
        vm.finish_execution(&mut mv, db0b, &TxVersion { tx_idx: 0, tx_incarnation: 1 }, Ok(out0b)),
        VmExecutionResult::Success { .. }
    ));
    assert_eq!(log_at(&mv, &MemoryLocation::Basic(c)).len(), 0);
    let log_d = log_at(&mv, &MemoryLocation::Basic(d));
    assert!(matches!(log_d[0].1, MemoryEntry::Data(1, MemoryValue::Basic(_))));
    let log_a = log_at(&mv, &MemoryLocation::Basic(a));
    assert_eq!(log_a.len(), 1);
    assert!(matches!(log_a[0].1, MemoryEntry::Data(1, _)));
}

#[test]
fn committed_read_set_replays_identically() {
    let a = addr(0xA);
    let b = addr(0xB);
    let x = addr(0x99);
    let sto = InMemoryStorage {
        accounts: vec![(a, plain_account(100, 0)), (x, plain_account(30, 0))],
        block_hashes: Vec::new(),
    };
    let vm = make_vm(addr(0xFEE), vec![transfer_tx(a, b, 10, 0), transfer_tx(x, b, 5, 0)]);
    let mut mv = MvMemory::new(2, Vec::new(), Vec::new());

    // the first transaction commits
    let mut db0 = vm.build_db(&mv, &sto, 0).unwrap();
    db0.basic(&mv, &sto, a).unwrap().unwrap();
    let out0 = EvmOutput {
        success: true,
        gas_used: 21000,
        logs: Vec::new(),
        state: vec![(a, touched_account(90, 1)), (b, touched_account(10, 0))],
    };
    assert!(matches!(
        vm.finish_execution(&mut mv, db0, &TxVersion { tx_idx: 0, tx_incarnation: 0 }, Ok(out0)),
        VmExecutionResult::Success { .. }
    ));

    // the second reads its sender and the first's sender, then commits
    let mut db1 = vm.build_db(&mv, &sto, 1).unwrap();
    let seen_x = db1.basic(&mv, &sto, x).unwrap().unwrap();
    let seen_a = db1.basic(&mv, &sto, a).unwrap().unwrap();
    let stored = db1.read_set.clone();
    let out1 = EvmOutput {
        success: true,
        gas_used: 21000,
        logs: Vec::new(),
        state: vec![(x, touched_account(25, 1)), (b, touched_account(15, 0))],
    };
    assert!(matches!(
        vm.finish_execution(&mut mv, db1, &TxVersion { tx_idx: 1, tx_incarnation: 0 }, Ok(out1)),
        VmExecutionResult::Success { .. }
    ));

    // the read set was recorded with the commit, and replaying the reads
    // against the final log returns the values originally seen: the
    // commit itself only wrote at or above the reader
    assert_eq!(mv.read_sets[1], stored);
    let mut replay = vm.build_db(&mv, &sto, 1).unwrap();
    let again_x = replay.basic(&mv, &sto, x).unwrap().unwrap();
    let again_a = replay.basic(&mv, &sto, a).unwrap().unwrap();
    assert_eq!(seen_x, again_x);
    assert_eq!(seen_a, again_a);
    for (loc, origins) in &stored.entries {
        let replayed = replay.read_set.get(loc).expect("replayed read missing");
        assert_eq!(&origins[..], &replayed[..]);
    }
}

#[test]
fn tombstoned_code_blocks_its_readers() {
    let deployer = addr(0xA);
    let contract = addr(0xC0);
    let sto = InMemoryStorage {
        accounts: vec![(deployer, plain_account(100, 0))],
        block_hashes: Vec::new(),
    };
    let vm = make_vm(
        addr(0xFEE),
        vec![transfer_tx(deployer, contract, 0, 0), transfer_tx(deployer, contract, 0, 1)],
    );
    let mut mv = MvMemory::new(2, Vec::new(), Vec::new());

    // the first transaction deploys code at the contract's address
    let db0 = vm.build_db(&mv, &sto, 0).unwrap();
    let deployed = EvmAccountL {
        balance: u(0),
        nonce: 1,
        code_hash: Some(u(0x99)),
        code: Some(vec![0x60]),
        selfdestructed: false,
        touched: true,
        storage_changes: Vec::new(),
    };
    let out0 = EvmOutput {
        success: true,
        gas_used: 53000,
        logs: Vec::new(),
        state: vec![(contract, deployed)],
    };
    assert!(matches!(
        vm.finish_execution(&mut mv, db0, &TxVersion { tx_idx: 0, tx_incarnation: 0 }, Ok(out0)),
        VmExecutionResult::Success { .. }
    ));
    let lc = log_at(&mv, &MemoryLocation::CodeHash(contract));
    assert!(matches!(lc[0].1, MemoryEntry::Data(0, MemoryValue::CodeHash(h)) if h == u(0x99)));

    // aborting the deployer tombstones the code slot: a later reader of
    // the contract's code must now block on the deployer
    mv.mark_estimate(0);
    assert_eq!(vm.build_db(&mv, &sto, 1).err(), Some(ReadError::BlockingIndex(0)));
    let mut db1 = VmDb::new(&mv, &sto, 1, 1, deployer, None, &Vec::new()).unwrap();
    assert_eq!(db1.get_code_hash(&mv, &sto, contract), Err(ReadError::BlockingIndex(0)));
}

#[test]
fn seeded_estimates_cover_the_fee_locations() {
    let op = pevm::chain_optimism::PevmOptimism::mainnet();
    let coinbase = addr(0xFEE);
    let benv = pevm::primitives::BlockEnv {
        number: 1,
        coinbase,
        timestamp: 1,
        gas_limit: 30_000_000,
        basefee: 0,
        difficulty: u(0),
        prevrandao: None,
        excess_blob_gas: None,
    };
    // one deposit between two sequenced transactions
    let mut deposit = transfer_tx(addr(1), addr(2), 0, 0);
    deposit.optimism.source_hash = Some(u(7));
    let txs = vec![transfer_tx(addr(1), addr(2), 0, 0), deposit, transfer_tx(addr(3), addr(4), 0, 1)];
    let mv = op.build_mv_memory(&benv, &txs);
    assert_eq!(mv.last_written.len(), 3);

    let benef = MemoryLocation::Basic(coinbase);
    let l1 = MemoryLocation::Basic(Address { hi: 0x4200_0000, lo: 0x1A });
    let base = MemoryLocation::Basic(Address { hi: 0x4200_0000, lo: 0x19 });
    assert_eq!(
        log_at(&mv, &benef),
        vec![(0usize, MemoryEntry::Estimate), (2, MemoryEntry::Estimate)]
    );
    assert_eq!(log_at(&mv, &l1), vec![(1usize, MemoryEntry::Estimate)]);
    assert_eq!(log_at(&mv, &base), vec![(1usize, MemoryEntry::Estimate)]);
    assert_eq!(log_at(&mv, &MemoryLocation::Basic(addr(1))), Vec::new());
    for loc in [&benef, &l1, &base] {
        assert!(mv.lazy_locations.contains(loc));
    }
}

#[test]
fn rewards_coalesce_with_beneficiary_entry() {
    let coinbase = addr(0xFEE);
    let a = addr(0xA);
    let mut tx = transfer_tx(a, coinbase, 10, 0);
    tx.gas_price = u(2);
    let vm = make_vm(coinbase, vec![tx.clone()]);

    // the beneficiary already has a concrete entry: the reward folds in
    let mut ws: Vec<(MemoryLocation, MemoryValue)> = vec![
        (
            MemoryLocation::Basic(coinbase),
            MemoryValue::Basic(AccountBasic { balance: u(10), nonce: 0 }),
        ),
    ];
    vm.apply_rewards(&mut ws, &tx, 3);
    match &ws[0].1 {
        MemoryValue::Basic(basic) => assert_eq!(basic.balance, u(16)),
        other => panic!("unexpected value {:?}", other),
    }

    // with no entry, a pending lazy addition is appended
    let mut ws2: Vec<(MemoryLocation, MemoryValue)> = Vec::new();
    vm.apply_rewards(&mut ws2, &tx, 3);
    assert_eq!(ws2.len(), 1);
    assert!(matches!(ws2[0].1, MemoryValue::LazyRecipient(x) if x == u(6)));
}

#[test]
fn storage_reads_through_the_log() {
    let owner = addr(0x50);
    let reader = addr(0x51);
    let slot = u(7);
    let sto = InMemoryStorage {
        accounts: vec![(
            owner,
            InMemoryAccount {
                balance: u(0),
                nonce: 0,
                code_hash: Some(u(0x77)),
                code: vec![1],
                storage: vec![(slot, u(41))],
            },
        )],
        block_hashes: Vec::new(),
    };
    let vm = make_vm(addr(0xFEE), vec![transfer_tx(reader, owner, 0, 0), transfer_tx(reader, owner, 0, 1)]);
    let mut mv = MvMemory::new(2, Vec::new(), Vec::new());

    // a concrete write by the first transaction
    let mut db0 = vm.build_db(&mv, &sto, 0).unwrap();
    assert_eq!(db0.storage(&mv, &sto, owner, slot), Ok(u(41)));
    db0.basic(&mv, &sto, owner).unwrap().unwrap();
    let changed = EvmAccountL {
        balance: u(0),
        nonce: 0,
        code_hash: Some(u(0x77)),
        code: Some(vec![1]),
        selfdestructed: false,
        touched: true,
        storage_changes: vec![(slot, SlotChange { original: u(41), present: u(42) })],
    };
    let out0 = EvmOutput {
        success: true,
        gas_used: 30000,
        logs: Vec::new(),
        state: vec![(owner, changed)],
    };
    assert!(matches!(
        vm.finish_execution(&mut mv, db0, &TxVersion { tx_idx: 0, tx_incarnation: 0 }, Ok(out0)),
        VmExecutionResult::Success { .. }
    ));

    // the second transaction reads the committed value
    let mut db1 = vm.build_db(&mv, &sto, 1).unwrap();
    assert_eq!(db1.storage(&mv, &sto, owner, slot), Ok(u(42)));
    // and the passthrough reads answer from pre-block storage
    assert_eq!(db1.has_storage(&sto, &owner), Ok(true));
    assert_eq!(db1.code_by_hash(&sto, &u(0x77)), Ok(Some(vec![1])));
    assert_eq!(db1.block_hash(&sto, &5), Ok(u(0)));
}
