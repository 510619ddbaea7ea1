//! The Keccak-256 digest, taken from the `alloy_primitives` crate; the
//! digest itself is not restated here, only named.

use vstd::prelude::*;
use crate::types::Address;
use crate::uint::U256;

verus! {

/// The Keccak-256 digest of a byte string, as a 256-bit word.
pub uninterp spec fn keccak_of(bytes: Seq<u8>) -> nat;

/// Relies on alloy_primitives::keccak256: the digest is a function of the
/// input bytes alone; its 32 bytes are read back big-endian.
#[verifier::external_body]
fn keccak256_raw(bytes: &Vec<u8>) -> (r: U256)
    ensures
        r.as_nat() == keccak_of(bytes@),
{
    let digest = alloy_primitives::keccak256(bytes.as_slice());
    let mut hi: u128 = 0;
    let mut lo: u128 = 0;
    for i in 0..16 {
        hi = (hi << 8) | (digest.0[i] as u128);
        lo = (lo << 8) | (digest.0[i + 16] as u128);
    }
    U256 { hi, lo }
}

/// Computes the Keccak-256 digest of a byte string.
pub fn keccak256(bytes: &Vec<u8>) -> (r: U256)
    ensures
        r.as_nat() == keccak_of(bytes@),
{
    keccak256_raw(bytes)
}

/// The preimage of the token balance slot of `address`: the address padded
/// left to 32 bytes, followed by the 32-byte slot index zero of the balance
/// mapping.
pub open spec fn erc20_balance_slot_preimage(address: Address) -> Seq<u8> {
    crate::bytes::be_bytes_of(0, 12) + address.be_bytes() + crate::bytes::be_bytes_of(0, 32)
}

/// The storage slot that a standard token contract keeps `address`'s
/// balance in: the digest of the padded address and mapping index zero.
pub fn get_erc20_balance_slot(address: Address) -> (r: U256)
    ensures
        r.as_nat() == keccak_of(erc20_balance_slot_preimage(address)),
{
    let mut buf: Vec<u8> = Vec::new();
    crate::bytes::push_zeros(&mut buf, 12);
    address.push_be_bytes(&mut buf);
    crate::bytes::push_zeros(&mut buf, 32);
    proof {
        assert(buf@ =~= erc20_balance_slot_preimage(address));
    }
    keccak256(&buf)
}

} // verus!
