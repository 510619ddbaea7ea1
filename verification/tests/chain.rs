//! Hardfork selection, gas prices and environment translation on
//! concrete headers and transactions.

use pevm::chain_optimism::{
    OptimismBlockSpecError, OptimismGasPriceError, OptimismTxEnvError, PevmOptimism,
};
use pevm::primitives::{
    get_block_env, get_block_spec, get_tx_env, ChainKind, Header, SpecId, Transaction,
    TransactionParsingError,
};
use pevm::types::Address;
use pevm::uint::U256;

fn header(number: Option<u64>, timestamp: u64) -> Header {
    Header {
        number,
        timestamp,
        total_difficulty: Some(U256 { hi: 0, lo: 0 }),
        difficulty: U256 { hi: 0, lo: 0 },
        gas_limit: 30_000_000,
        base_fee_per_gas: Some(7),
        miner: Address { hi: 0, lo: 0xFEE },
        mix_hash: None,
        excess_blob_gas: None,
    }
}

fn plain_tx() -> Transaction {
    Transaction {
        from: Address { hi: 0, lo: 0xA },
        gas: 21000,
        gas_price: Some(100),
        max_fee_per_gas: Some(200),
        max_priority_fee_per_gas: Some(2),
        transaction_type: Some(0),
        to: Some(Address { hi: 0, lo: 0xB }),
        value: U256 { hi: 0, lo: 1 },
        input: Vec::new(),
        nonce: 0,
        chain_id: Some(1),
        access_list: None,
        blob_versioned_hashes: None,
        max_fee_per_blob_gas: None,
        source_hash: None,
        mint: None,
        is_system_tx: None,
        envelope: Some(vec![0x01, 0x02]),
    }
}

#[test]
fn ethereum_block_spec_thresholds() {
    let cases: Vec<(Option<u64>, u64, Option<SpecId>)> = vec![
        (Some(1), 1710338135, Some(SpecId::CANCUN)),
        (Some(1), 1681338455, Some(SpecId::SHANGHAI)),
        (Some(12965000), 1_000_000, Some(SpecId::LONDON)),
        (Some(12244000), 1_000_000, Some(SpecId::BERLIN)),
        (Some(9069000), 1_000_000, Some(SpecId::ISTANBUL)),
        (Some(7280000), 1_000_000, Some(SpecId::PETERSBURG)),
        (Some(4370000), 1_000_000, Some(SpecId::BYZANTIUM)),
        (Some(2675000), 1_000_000, Some(SpecId::SPURIOUS_DRAGON)),
        (Some(2463000), 1_000_000, Some(SpecId::TANGERINE)),
        (Some(1150000), 1_000_000, Some(SpecId::HOMESTEAD)),
        (Some(0), 1_000_000, Some(SpecId::FRONTIER)),
        (None, 1_000_000, None),
    ];
    for (number, ts, expected) in cases {
        assert_eq!(get_block_spec(ChainKind::Ethereum, &header(number, ts)), expected);
    }
    // accumulated difficulty selects the merge
    let mut h = header(Some(1), 1_000_000);
    h.total_difficulty = Some(U256 { hi: 0, lo: 58_750_000_000_000_000_000_000 });
    assert_eq!(get_block_spec(ChainKind::Ethereum, &h), Some(SpecId::MERGE));
    let mut h2 = header(Some(1), 1_000_000);
    h2.total_difficulty = None;
    assert_eq!(get_block_spec(ChainKind::Ethereum, &h2), None);
}

#[test]
fn optimism_block_spec_thresholds() {
    let op = PevmOptimism::mainnet();
    assert_eq!(op.get_block_spec(&header(Some(1), 1720627201)), Ok(SpecId::FJORD));
    assert_eq!(op.get_block_spec(&header(Some(1), 1710374401)), Ok(SpecId::ECOTONE));
    assert_eq!(op.get_block_spec(&header(Some(1), 1704992401)), Ok(SpecId::CANYON));
    assert_eq!(op.get_block_spec(&header(Some(105235063), 1)), Ok(SpecId::REGOLITH));
    assert_eq!(
        op.get_block_spec(&header(Some(1), 1)),
        Err(OptimismBlockSpecError::UnsupportedSpec)
    );
    assert_eq!(
        op.get_block_spec(&header(None, 1)),
        Err(OptimismBlockSpecError::MissingBlockNumber)
    );
    // chain kind routing in the chain-agnostic selector
    assert_eq!(
        get_block_spec(ChainKind::Optimism, &header(Some(1), 1710374401)),
        Some(SpecId::ECOTONE)
    );
}

#[test]
fn spec_ordering() {
    assert!(SpecId::CANCUN.is_enabled_in(SpecId::LONDON));
    assert!(SpecId::LONDON.is_enabled_in(SpecId::LONDON));
    assert!(!SpecId::BERLIN.is_enabled_in(SpecId::LONDON));
    assert!(SpecId::CANYON.is_enabled_in(SpecId::SPURIOUS_DRAGON));
}

#[test]
fn block_env_from_header() {
    let h = header(Some(42), 1000);
    let b = get_block_env(&h).unwrap();
    assert_eq!(b.number, 42);
    assert_eq!(b.basefee, 7);
    assert_eq!(b.coinbase, Address { hi: 0, lo: 0xFEE });
    assert!(get_block_env(&header(None, 1000)).is_none());
}

#[test]
fn optimism_gas_price_by_type() {
    let op = PevmOptimism::mainnet();
    assert_eq!(op.id(), 10);
    let mut tx = plain_tx();
    assert_eq!(op.get_gas_price(&tx), Ok(U256 { hi: 0, lo: 100 }));
    tx.transaction_type = Some(2);
    assert_eq!(op.get_gas_price(&tx), Ok(U256 { hi: 0, lo: 200 }));
    tx.transaction_type = Some(126);
    assert_eq!(op.get_gas_price(&tx), Ok(U256 { hi: 0, lo: 0 }));
    tx.transaction_type = Some(5);
    assert_eq!(op.get_gas_price(&tx), Err(OptimismGasPriceError::InvalidType(5)));
    tx.transaction_type = Some(0);
    tx.gas_price = None;
    assert_eq!(op.get_gas_price(&tx), Err(OptimismGasPriceError::MissingGasPrice));
    tx.transaction_type = Some(3);
    tx.max_fee_per_gas = None;
    assert_eq!(op.get_gas_price(&tx), Err(OptimismGasPriceError::MissingMaxFeePerGas));
}

#[test]
fn ethereum_tx_env_translation() {
    let tx = plain_tx();
    let env = get_tx_env(tx).unwrap();
    assert_eq!(env.gas_limit, 21000);
    assert_eq!(env.gas_price, U256 { hi: 0, lo: 100 });
    assert_eq!(env.caller, Address { hi: 0, lo: 0xA });
    assert_eq!(env.nonce, Some(0));

    let mut too_big = plain_tx();
    too_big.gas = (u64::MAX as u128) + 1;
    assert_eq!(get_tx_env(too_big), Err(TransactionParsingError::OverflowedGasLimit));

    let mut no_price = plain_tx();
    no_price.gas_price = None;
    assert_eq!(get_tx_env(no_price), Err(TransactionParsingError::MissingGasPrice));

    let mut no_max = plain_tx();
    no_max.transaction_type = Some(2);
    no_max.max_fee_per_gas = None;
    assert_eq!(get_tx_env(no_max), Err(TransactionParsingError::MissingMaxFeePerGas));

    let mut unknown = plain_tx();
    unknown.transaction_type = Some(9);
    assert_eq!(get_tx_env(unknown), Err(TransactionParsingError::InvalidType(9)));

    let mut no_env = plain_tx();
    no_env.envelope = None;
    assert!(matches!(
        get_tx_env(no_env),
        Err(TransactionParsingError::ConversionError(_))
    ));
}

#[test]
fn optimism_tx_env_translation() {
    let op = PevmOptimism::mainnet();
    let mut dep = plain_tx();
    dep.transaction_type = Some(126);
    dep.source_hash = Some(U256 { hi: 0, lo: 7 });
    dep.envelope = None;
    let env = op.get_tx_env(dep).unwrap();
    assert_eq!(env.gas_price, U256 { hi: 0, lo: 0 });
    let enveloped = env.optimism.enveloped_tx.unwrap();
    assert_eq!(enveloped[0], 126);

    let mut no_source = plain_tx();
    no_source.transaction_type = Some(126);
    no_source.source_hash = None;
    assert!(matches!(
        op.get_tx_env(no_source),
        Err(OptimismTxEnvError::MissingSourceHash)
    ));

    let mut odd = plain_tx();
    odd.transaction_type = Some(77);
    assert!(matches!(op.get_tx_env(odd), Err(OptimismTxEnvError::UnexpectedType(77))));
}

#[test]
fn ethereum_tx_env_errors_do_not_reach_envelope() {
    // a deposit without an envelope still translates, through its own
    // wire encoding
    let mut dep = plain_tx();
    dep.transaction_type = Some(126);
    dep.source_hash = Some(U256 { hi: 0, lo: 9 });
    dep.envelope = None;
    let env = get_tx_env(dep).unwrap();
    assert!(env.optimism.enveloped_tx.is_some());
}
