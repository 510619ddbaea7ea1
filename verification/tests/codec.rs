//! Words, byte codecs, wire encodings and digests on concrete values.

use pevm::bytes::{copy_bytes, push_be, read_be_u128};
use pevm::keccak::{get_erc20_balance_slot, keccak256};
use pevm::rlp::{
    encode_deposit_envelope, push_min_be, push_rlp_bool, push_rlp_str, push_rlp_u256,
    push_rlp_uint,
};
use pevm::types::Address;
use pevm::uint::U256;

fn u(v: u128) -> U256 {
    U256 { hi: 0, lo: v }
}

#[test]
fn u256_order_and_equality() {
    let a = U256 { hi: 0, lo: u128::MAX };
    let b = U256 { hi: 1, lo: 0 };
    assert!(a.lt(b));
    assert!(a.le(b));
    assert!(!b.le(a));
    assert_eq!(a.min_of(b), a);
    assert!(u(0).is_zero());
    assert!(!u(1).is_zero());
}

#[test]
fn u256_wrapping_arithmetic() {
    // carry across the limb boundary
    let a = U256 { hi: 0, lo: u128::MAX };
    let s = a.wrapping_add(u(1));
    assert_eq!(s, U256 { hi: 1, lo: 0 });
    // wrap around the modulus
    let m = U256::max_value();
    assert_eq!(m.wrapping_add(u(1)), U256 { hi: 0, lo: 0 });
    // borrow across the limb boundary
    assert_eq!(U256 { hi: 1, lo: 0 }.wrapping_sub(u(1)), U256 { hi: 0, lo: u128::MAX });
    // wrap below zero
    assert_eq!(u(0).wrapping_sub(u(1)), U256::max_value());
    // absolute difference is symmetric
    assert_eq!(u(3).abs_diff(u(10)), u(7));
    assert_eq!(u(10).abs_diff(u(3)), u(7));
    // saturating subtraction floors at zero
    assert_eq!(u(3).saturating_sub(u(10)), u(0));
    assert_eq!(u(10).saturating_sub(u(3)), u(7));
}

#[test]
fn u256_mul_by_u64() {
    let p = u(1u128 << 100).mul_u64(1u64 << 30);
    // 2^100 * 2^30 = 2^130 = hi limb 4
    assert_eq!(p, U256 { hi: 4, lo: 0 });
    assert_eq!(u(7).mul_u64(6), u(42));
}

#[test]
fn big_endian_round_trip() {
    let mut out: Vec<u8> = Vec::new();
    push_be(&mut out, 0x0102_0304, 4);
    assert_eq!(out, vec![1, 2, 3, 4]);
    let v = read_be_u128(&out, 0, 4);
    assert_eq!(v, 0x0102_0304);
    let copied = copy_bytes(&out);
    assert_eq!(copied, out);
    let mut wide: Vec<u8> = Vec::new();
    let w = U256 { hi: 1, lo: 2 };
    w.push_be_bytes(&mut wide);
    assert_eq!(wide.len(), 32);
    assert_eq!(wide[15], 1);
    assert_eq!(wide[31], 2);
    assert_eq!(U256::from_be_slice(&wide, 0), w);
}

#[test]
fn address_bytes_round_trip() {
    let a = Address { hi: 0xA1B2_C3D4, lo: 0x1122_3344_5566_7788_99AA_BBCC_DDEE_FF00 };
    let mut out: Vec<u8> = Vec::new();
    a.push_be_bytes(&mut out);
    assert_eq!(out.len(), 20);
    assert_eq!(out[0], 0xA1);
    assert_eq!(Address::from_be_slice(&out, 0), a);
}

#[test]
fn rlp_known_vectors() {
    // the empty string
    let mut out: Vec<u8> = Vec::new();
    push_rlp_str(&mut out, &Vec::new());
    assert_eq!(out, vec![0x80]);
    // a single low byte is itself
    let mut out: Vec<u8> = Vec::new();
    push_rlp_str(&mut out, &vec![0x7F]);
    assert_eq!(out, vec![0x7F]);
    // "dog"
    let mut out: Vec<u8> = Vec::new();
    push_rlp_str(&mut out, &vec![b'd', b'o', b'g']);
    assert_eq!(out, vec![0x83, b'd', b'o', b'g']);
    // zero is the empty string
    let mut out: Vec<u8> = Vec::new();
    push_rlp_uint(&mut out, 0);
    assert_eq!(out, vec![0x80]);
    // 1024
    let mut out: Vec<u8> = Vec::new();
    push_rlp_uint(&mut out, 1024);
    assert_eq!(out, vec![0x82, 0x04, 0x00]);
    // booleans
    let mut out: Vec<u8> = Vec::new();
    push_rlp_bool(&mut out, true);
    push_rlp_bool(&mut out, false);
    assert_eq!(out, vec![0x01, 0x80]);
    // a 56-byte string takes the long form
    let mut out: Vec<u8> = Vec::new();
    push_rlp_str(&mut out, &vec![0xABu8; 56]);
    assert_eq!(out[0], 0xB8);
    assert_eq!(out[1], 56);
    assert_eq!(out.len(), 58);
    // minimal big-endian strips leading zeros
    let mut out: Vec<u8> = Vec::new();
    push_min_be(&mut out, 0x01_00_02);
    assert_eq!(out, vec![0x01, 0x00, 0x02]);
    // a wide word encodes its minimal bytes
    let mut out: Vec<u8> = Vec::new();
    push_rlp_u256(&mut out, U256 { hi: 1, lo: 0 });
    assert_eq!(out.len(), 18);
    assert_eq!(out[0], 0x91);
    assert_eq!(out[1], 1);
}

#[test]
fn deposit_envelope_wire_shape() {
    let tx = pevm::primitives::Transaction {
        from: Address { hi: 0, lo: 0xAA },
        gas: 21000,
        gas_price: None,
        max_fee_per_gas: None,
        max_priority_fee_per_gas: None,
        transaction_type: Some(126),
        to: Some(Address { hi: 0, lo: 0xBB }),
        value: U256 { hi: 0, lo: 5 },
        input: Vec::new(),
        nonce: 0,
        chain_id: Some(10),
        access_list: None,
        blob_versioned_hashes: None,
        max_fee_per_blob_gas: None,
        source_hash: Some(U256 { hi: 0, lo: 7 }),
        mint: Some(3),
        is_system_tx: Some(false),
        envelope: None,
    };
    let env = encode_deposit_envelope(&tx);
    // type byte, then a long-form list header for the 82-byte payload
    assert_eq!(env[0], 126);
    assert_eq!(env[1], 0xF8);
    assert_eq!(env[2], 82);
    // the 32-byte source hash string follows the header
    assert_eq!(env[3], 0xA0);
    // payload: hash(33) + from(21) + to(21) + mint(1) + value(1) + gas(3) + flag(1) + input(1)
    assert_eq!(env.len(), 3 + 82);
}

#[test]
fn erc20_balance_slot_is_the_digest() {
    // keccak-256 of 64 zero bytes, a well-known constant
    let slot = get_erc20_balance_slot(Address { hi: 0, lo: 0 });
    let expected = U256 {
        hi: 0xad3228b676f7d3cd4284a5443f17f196,
        lo: 0x2b36e491b30a40b2405849e597ba5fb5,
    };
    assert_eq!(slot, expected);
    // a different address lands on a different slot
    let other = get_erc20_balance_slot(Address { hi: 0, lo: 1 });
    assert_ne!(other, expected);
    // the digest function itself on a known vector: keccak("")
    let empty = keccak256(&Vec::new());
    let keccak_empty = U256 {
        hi: 0xc5d2460186f7233c927e7db2dcc703c0,
        lo: 0xe500b653ca82273b7bfad8045d85a470,
    };
    assert_eq!(empty, keccak_empty);
}
