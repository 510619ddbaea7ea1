//! Receipt encodings, bloom filters and the receipts root on concrete
//! values, cross-checked against the reference implementations.

use pevm::chain_optimism::PevmOptimism;
use pevm::primitives::SpecId;
use pevm::receipt::{encode_receipt_2718, logs_bloom_exec};
use pevm::types::Address;
use pevm::uint::U256;
use pevm::vm::{LogL, PevmTxExecutionResult, Receipt};

fn u(v: u128) -> U256 {
    U256 { hi: 0, lo: v }
}

fn be_bytes(v: &U256) -> Vec<u8> {
    let mut out = Vec::new();
    v.push_be_bytes(&mut out);
    out
}

#[test]
fn bloom_matches_the_reference_filter() {
    let address = Address { hi: 0xDEAD_BEEF, lo: 0x1234_5678_9ABC_DEF0 };
    let topic = u(0x42);
    let log = LogL { address, topics: vec![topic], data: vec![1, 2, 3] };
    let ours = logs_bloom_exec(&vec![log]);

    let mut reference = alloy_primitives::Bloom::default();
    let mut addr_bytes = Vec::new();
    address.push_be_bytes(&mut addr_bytes);
    reference.m3_2048(&addr_bytes);
    reference.m3_2048(&be_bytes(&topic));

    assert_eq!(&ours[..], reference.as_slice());
    // an empty log list leaves the filter clear
    assert_eq!(logs_bloom_exec(&Vec::new()), vec![0u8; 256]);
}

#[test]
fn legacy_receipt_encoding_shape() {
    let r = Receipt { status: true, cumulative_gas_used: 21000, logs: Vec::new() };
    let encoded = encode_receipt_2718(0, &r, None);
    // list header: payload = status(1) + gas(3) + bloom(259) + logs(1)
    assert_eq!(encoded[0], 0xF9);
    assert_eq!(encoded[1], 0x01);
    assert_eq!(encoded[2], 0x08);
    assert_eq!(encoded[3], 0x01); // success
    assert_eq!(&encoded[4..7], &[0x82, 0x52, 0x08]); // 21000
    assert_eq!(&encoded[7..10], &[0xB9, 0x01, 0x00]); // 256-byte bloom
    assert_eq!(encoded[266], 0xC0); // no logs
    assert_eq!(encoded.len(), 267);

    // a typed receipt is prefixed by its type byte
    let typed = encode_receipt_2718(2, &r, None);
    assert_eq!(typed[0], 2);
    assert_eq!(&typed[1..], &encoded[..]);

    // a deposit receipt appends its nonce and version after the fork
    let dep = encode_receipt_2718(126, &r, Some((7, 1)));
    assert_eq!(dep[0], 126);
    assert_eq!(dep.len(), 1 + 3 + 264 + 2);
    assert_eq!(&dep[dep.len() - 2..], &[0x07, 0x01]);
}

#[test]
fn receipts_root_of_an_empty_block_is_the_empty_root() {
    let op = PevmOptimism::mainnet();
    let root = op.calculate_receipt_root(SpecId::CANYON, &Vec::new(), &Vec::new());
    let expected = U256 {
        hi: 0x56e81f171bcc55a6ff8345e692c0f86e,
        lo: 0x5b48e01b996cadc001622fb5e363b421,
    };
    assert_eq!(root, expected);
}

#[test]
fn receipts_root_depends_on_the_receipts() {
    let op = PevmOptimism::mainnet();
    let tx = pevm::primitives::Transaction {
        from: Address { hi: 0, lo: 0xAA },
        gas: 21000,
        gas_price: Some(1),
        max_fee_per_gas: None,
        max_priority_fee_per_gas: None,
        transaction_type: Some(0),
        to: None,
        value: u(0),
        input: Vec::new(),
        nonce: 0,
        chain_id: Some(10),
        access_list: None,
        blob_versioned_hashes: None,
        max_fee_per_blob_gas: None,
        source_hash: None,
        mint: None,
        is_system_tx: None,
        envelope: None,
    };
    let ok = PevmTxExecutionResult {
        receipt: Receipt { status: true, cumulative_gas_used: 21000, logs: Vec::new() },
        state: Vec::new(),
    };
    let failed = PevmTxExecutionResult {
        receipt: Receipt { status: false, cumulative_gas_used: 21000, logs: Vec::new() },
        state: Vec::new(),
    };
    let r1 = op.calculate_receipt_root(SpecId::CANYON, &vec![tx.clone()], &vec![ok]);
    let r2 = op.calculate_receipt_root(SpecId::CANYON, &vec![tx], &vec![failed]);
    assert_ne!(r1, r2);
}
