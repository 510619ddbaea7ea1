//! Recursive-length-prefix encoding of byte strings, integers and lists,
//! as the wire format of transaction envelopes demands.

use vstd::prelude::*;
use crate::bytes::{be_bytes_of, be_val};
use crate::uint::U256;

verus! {

/// The minimal big-endian encoding of an integer: no leading zeros, zero
/// itself is empty.
pub open spec fn min_be(n: nat) -> Seq<u8>
    decreases n,
{
    if n == 0 {
        Seq::empty()
    } else {
        min_be(n / 256) + seq![(n % 256) as u8]
    }
}

/// The encoding of a byte string.
pub open spec fn rlp_str(b: Seq<u8>) -> Seq<u8> {
    if b.len() == 1 && b[0] < 0x80 {
        b
    } else if b.len() <= 55 {
        seq![(0x80 + b.len()) as u8] + b
    } else {
        seq![(0xb7 + min_be(b.len()).len()) as u8] + min_be(b.len()) + b
    }
}

/// The encoding of an integer: its minimal big-endian bytes as a string.
pub open spec fn rlp_int(n: nat) -> Seq<u8> {
    rlp_str(min_be(n))
}

/// The encoding of a list, given its already-encoded payload.
pub open spec fn rlp_list(payload: Seq<u8>) -> Seq<u8> {
    if payload.len() <= 55 {
        seq![(0xc0 + payload.len()) as u8] + payload
    } else {
        seq![(0xf7 + min_be(payload.len()).len()) as u8] + min_be(payload.len()) + payload
    }
}

/// A number below 256^k needs at most k minimal big-endian bytes.
pub proof fn lemma_min_be_len_k(n: nat, k: nat)
    requires
        n < vstd::arithmetic::power::pow(256, k),
    ensures
        min_be(n).len() <= k,
    decreases k,
{
    if n > 0 {
        vstd::arithmetic::power::lemma_pow0(256);
        if k == 0 {
        } else {
            vstd::arithmetic::power::lemma_pow1(256);
            vstd::arithmetic::power::lemma_pow_adds(256, (k - 1) as nat, 1);
            let pp = vstd::arithmetic::power::pow(256, (k - 1) as nat);
            assert(n / 256 < pp) by (nonlinear_arith)
                requires
                    n < pp * 256,
            ;
            lemma_min_be_len_k((n / 256) as nat, (k - 1) as nat);
        }
    }
}

/// 256^8 is 2^64.
pub proof fn lemma_pow256_8()
    ensures
        vstd::arithmetic::power::pow(256, 8) == 0x1_0000_0000_0000_0000nat,
{
    reveal_with_fuel(vstd::arithmetic::power::pow, 9);
}

/// The length of a minimal big-endian encoding of a machine-sized number
/// is at most sixteen, so length prefixes always fit a byte.
pub proof fn lemma_min_be_len(n: nat)
    ensures
        n < 0x1_0000_0000_0000_0000_0000_0000_0000_0000nat ==> min_be(n).len() <= 16,
        n > 0 ==> min_be(n).len() >= 1,
{
    if n < 0x1_0000_0000_0000_0000_0000_0000_0000_0000nat {
        crate::bytes::lemma_pow256_16();
        lemma_min_be_len_k(n, 16);
    }
}

/// Appends the minimal big-endian bytes of `x`.
pub fn push_min_be(out: &mut Vec<u8>, x: u128)
    ensures
        final(out)@ == old(out)@ + min_be(x as nat),
    decreases x,
{
    if x == 0 {
        proof {
            assert(old(out)@ + min_be(0) =~= old(out)@);
        }
    } else {
        push_min_be(out, x / 256);
        out.push((x % 256) as u8);
        proof {
            assert(final(out)@ =~= old(out)@ + min_be(x as nat));
        }
    }
}

/// Appends the string encoding of the bytes of `b`.
pub fn push_rlp_str(out: &mut Vec<u8>, b: &Vec<u8>)
    ensures
        final(out)@ == old(out)@ + rlp_str(b@),
{
    let n = b.len();
    if n == 1 && b[0] < 0x80 {
        out.push(b[0]);
        proof {
            assert(b@ =~= seq![b@[0]]);
            assert(final(out)@ =~= old(out)@ + rlp_str(b@));
        }
        return ;
    }
    if n <= 55 {
        out.push(0x80 + (n as u8));
    } else {
        let mut len_bytes: Vec<u8> = Vec::new();
        proof {
            lemma_min_be_len(n as nat);
            assert(n as u128 as nat == n as nat);
        }
        push_min_be(&mut len_bytes, n as u128);
        out.push(0xb7 + (len_bytes.len() as u8));
        let m = len_bytes.len();
        let mut i: usize = 0;
        while i < m
            invariant
                i <= m == len_bytes@.len(),
                out@ == old(out)@ + seq![(0xb7 + len_bytes@.len()) as u8] + len_bytes@.take(
                    i as int,
                ),
            decreases m - i,
        {
            out.push(len_bytes[i]);
            proof {
                assert(len_bytes@.take(i as int).push(len_bytes@[i as int]) =~= len_bytes@.take(
                    i + 1));
                assert(out@ =~= old(out)@ + seq![(0xb7 + len_bytes@.len()) as u8]
                    + len_bytes@.take(i + 1));
            }
            i = i + 1;
        }
        proof {
            assert(len_bytes@.take(m as int) =~= len_bytes@);
        }
    }
    let mut i: usize = 0;
    let ghost mid = out@;
    while i < n
        invariant
            i <= n == b@.len(),
            out@ == mid + b@.take(i as int),
        decreases n - i,
    {
        out.push(b[i]);
        proof {
            assert(b@.take(i as int).push(b@[i as int]) =~= b@.take(i + 1));
            assert(out@ =~= mid + b@.take(i + 1));
        }
        i = i + 1;
    }
    proof {
        assert(b@.take(n as int) =~= b@);
        if n == 1 && b@[0] < 0x80 {
        } else if n <= 55 {
            assert(final(out)@ =~= old(out)@ + rlp_str(b@));
        } else {
            assert(final(out)@ =~= old(out)@ + rlp_str(b@));
        }
    }
}

/// Appends the integer encoding of `x`.
pub fn push_rlp_uint(out: &mut Vec<u8>, x: u128)
    ensures
        final(out)@ == old(out)@ + rlp_int(x as nat),
{
    let mut buf: Vec<u8> = Vec::new();
    push_min_be(&mut buf, x);
    proof {
        assert(buf@ =~= min_be(x as nat));
    }
    push_rlp_str(out, &buf);
}

/// The minimal big-endian bytes of a two-limb word split at the limbs.
pub proof fn lemma_min_be_split(a: nat, b: nat, k: nat)
    requires
        a > 0,
        b < vstd::arithmetic::power::pow(256, k),
    ensures
        min_be((a * vstd::arithmetic::power::pow(256, k) + b) as nat) == min_be(a) + be_bytes_of(b, k),
    decreases k,
{
    let p = vstd::arithmetic::power::pow(256, k);
    if k == 0 {
        vstd::arithmetic::power::lemma_pow0(256);
        assert(b == 0);
        assert(min_be(a * 1 + 0) =~= min_be(a) + be_bytes_of(0, 0));
    } else {
        vstd::arithmetic::power::lemma_pow1(256);
        vstd::arithmetic::power::lemma_pow_adds(256, (k - 1) as nat, 1);
        let pp = vstd::arithmetic::power::pow(256, (k - 1) as nat);
        let n = a * p + b;
        assert(p == pp * 256);
        assert(n == (a * pp) * 256 + b) by (nonlinear_arith)
            requires
                n == a * p + b,
                p == pp * 256,
        ;
        assert(n % 256 == b % 256 && n / 256 == a * pp + b / 256) by (nonlinear_arith)
            requires
                n == (a * pp) * 256 + b,
                b >= 0,
        ;
        vstd::arithmetic::power::lemma_pow_positive(256, (k - 1) as nat);
        assert(b / 256 < pp) by (nonlinear_arith)
            requires
                b < pp * 256,
                pp > 0,
        ;
        lemma_min_be_split(a, b / 256, (k - 1) as nat);
        assert(a * pp + b / 256 > 0) by (nonlinear_arith)
            requires
                a > 0,
                pp > 0,
                b / 256 >= 0,
        ;
        assert(min_be(n as nat) =~= min_be(a) + be_bytes_of(b, k)) by {
            assert(min_be(n as nat) == min_be((n / 256) as nat) + seq![(n % 256) as u8]);
            assert(min_be((n / 256) as nat) == min_be(a) + be_bytes_of((b / 256) as nat, (k - 1) as nat));
            assert(be_bytes_of(b, k) == be_bytes_of(b / 256, (k - 1) as nat) + seq![(b % 256) as u8]);
        }
    }
}

/// Appends the integer encoding of a 256-bit word.
pub fn push_rlp_u256(out: &mut Vec<u8>, x: U256)
    ensures
        final(out)@ == old(out)@ + rlp_int(x.as_nat()),
{
    let mut buf: Vec<u8> = Vec::new();
    if x.hi == 0 {
        push_min_be(&mut buf, x.lo);
        proof {
            assert(buf@ =~= min_be(x.as_nat()));
        }
    } else {
        push_min_be(&mut buf, x.hi);
        crate::bytes::push_be(&mut buf, x.lo, 16);
        proof {
            crate::bytes::lemma_pow256_16();
            lemma_min_be_split(x.hi as nat, x.lo as nat, 16);
            assert(buf@ =~= min_be(x.as_nat()));
        }
    }
    push_rlp_str(out, &buf);
}

/// Appends the 32-byte string encoding of a word read as a hash.
pub fn push_rlp_b256(out: &mut Vec<u8>, x: U256)
    ensures
        final(out)@ == old(out)@ + rlp_str(x.be_bytes()),
{
    let mut buf: Vec<u8> = Vec::new();
    x.push_be_bytes(&mut buf);
    proof {
        crate::bytes::lemma_be_bytes_len(x.hi as nat, 16);
        crate::bytes::lemma_be_bytes_len(x.lo as nat, 16);
        assert(buf@ =~= x.be_bytes());
    }
    push_rlp_str(out, &buf);
}

/// Appends the 20-byte string encoding of an address.
pub fn push_rlp_address(out: &mut Vec<u8>, a: crate::types::Address)
    ensures
        final(out)@ == old(out)@ + rlp_str(a.be_bytes()),
{
    let mut buf: Vec<u8> = Vec::new();
    a.push_be_bytes(&mut buf);
    proof {
        crate::bytes::lemma_be_bytes_len(a.hi as nat, 4);
        crate::bytes::lemma_be_bytes_len(a.lo as nat, 16);
        assert(buf@ =~= a.be_bytes());
    }
    push_rlp_str(out, &buf);
}

/// The encoding of a boolean: one or the empty string.
pub open spec fn rlp_bool(b: bool) -> Seq<u8> {
    if b {
        seq![1u8]
    } else {
        seq![0x80u8]
    }
}

/// Appends the encoding of a boolean.
pub fn push_rlp_bool(out: &mut Vec<u8>, b: bool)
    ensures
        final(out)@ == old(out)@ + rlp_bool(b),
{
    if b {
        out.push(1);
    } else {
        out.push(0x80);
    }
    proof {
        assert(final(out)@ =~= old(out)@ + rlp_bool(b));
    }
}

/// Appends a list header and the list's already-encoded payload.
pub fn push_rlp_list_from(out: &mut Vec<u8>, payload: &Vec<u8>)
    ensures
        final(out)@ == old(out)@ + rlp_list(payload@),
{
    let plen = payload.len();
    if plen <= 55 {
        out.push(0xc0 + (plen as u8));
    } else {
        let mut len_bytes: Vec<u8> = Vec::new();
        proof {
            lemma_pow256_8();
            lemma_min_be_len_k(plen as nat, 8);
        }
        push_min_be(&mut len_bytes, plen as u128);
        out.push(0xf7 + (len_bytes.len() as u8));
        let m = len_bytes.len();
        let mut i: usize = 0;
        while i < m
            invariant
                i <= m == len_bytes@.len(),
                out@ == old(out)@ + seq![(0xf7 + len_bytes@.len()) as u8] + len_bytes@.take(
                    i as int,
                ),
            decreases m - i,
        {
            out.push(len_bytes[i]);
            proof {
                assert(len_bytes@.take(i as int).push(len_bytes@[i as int]) =~= len_bytes@.take(
                    i + 1));
                assert(out@ =~= old(out)@ + seq![(0xf7 + len_bytes@.len()) as u8]
                    + len_bytes@.take(i + 1));
            }
            i = i + 1;
        }
        proof {
            assert(len_bytes@.take(m as int) =~= len_bytes@);
        }
    }
    let ghost mid = out@;
    let n = payload.len();
    let mut i: usize = 0;
    while i < n
        invariant
            i <= n == payload@.len(),
            out@ == mid + payload@.take(i as int),
        decreases n - i,
    {
        out.push(payload[i]);
        proof {
            assert(payload@.take(i as int).push(payload@[i as int]) =~= payload@.take(i + 1));
            assert(out@ =~= mid + payload@.take(i + 1));
        }
        i = i + 1;
    }
    proof {
        assert(payload@.take(n as int) =~= payload@);
        assert(final(out)@ =~= old(out)@ + rlp_list(payload@));
    }
}

/// The payload of a deposit transaction's envelope: its fields in wire
/// order.
pub open spec fn deposit_payload(tx: crate::primitives::Transaction) -> Seq<u8> {
    rlp_str(
        (match tx.source_hash {
            Some(h) => h,
            None => U256 { hi: 0, lo: 0 },
        }).be_bytes(),
    ) + rlp_str(tx.from.be_bytes()) + (match tx.to {
        Some(t) => rlp_str(t.be_bytes()),
        None => rlp_str(Seq::empty()),
    }) + (match tx.mint {
        Some(m) => rlp_int(m as nat),
        None => rlp_str(Seq::empty()),
    }) + rlp_int(tx.value.as_nat()) + rlp_int((tx.gas % 0x1_0000_0000_0000_0000) as nat) + rlp_bool(
        match tx.is_system_tx {
            Some(b) => b,
            None => false,
        },
    ) + rlp_str(tx.input@)
}

/// The signed wire encoding of a deposit transaction: its type byte, then
/// the field list.
pub open spec fn deposit_envelope(tx: crate::primitives::Transaction) -> Seq<u8> {
    seq![126u8] + rlp_list(deposit_payload(tx))
}

/// Builds the wire envelope of a deposit transaction.
pub fn encode_deposit_envelope(tx: &crate::primitives::Transaction) -> (r: Vec<u8>)
    ensures
        r@ == deposit_envelope(*tx),
{
    let mut payload: Vec<u8> = Vec::new();
    let sh = match &tx.source_hash {
        Some(h) => *h,
        None => U256 { hi: 0, lo: 0 },
    };
    push_rlp_b256(&mut payload, sh);
    push_rlp_address(&mut payload, tx.from);
    match &tx.to {
        Some(t) => {
            push_rlp_address(&mut payload, *t);
        },
        None => {
            let empty: Vec<u8> = Vec::new();
            push_rlp_str(&mut payload, &empty);
        },
    }
    match &tx.mint {
        Some(m) => {
            push_rlp_uint(&mut payload, *m);
        },
        None => {
            let empty: Vec<u8> = Vec::new();
            push_rlp_str(&mut payload, &empty);
        },
    }
    push_rlp_u256(&mut payload, tx.value);
    push_rlp_uint(&mut payload, (tx.gas % 0x1_0000_0000_0000_0000) as u128);
    push_rlp_bool(
        &mut payload,
        match &tx.is_system_tx {
            Some(b) => *b,
            None => false,
        },
    );
    push_rlp_str(&mut payload, &tx.input);
    proof {
        assert(payload@ =~= deposit_payload(*tx));
    }

    let mut out: Vec<u8> = Vec::new();
    out.push(126);
    let plen = payload.len();
    if plen <= 55 {
        out.push(0xc0 + (plen as u8));
    } else {
        let mut len_bytes: Vec<u8> = Vec::new();
        proof {
            lemma_pow256_8();
            lemma_min_be_len_k(plen as nat, 8);
        }
        push_min_be(&mut len_bytes, plen as u128);
        out.push(0xf7 + (len_bytes.len() as u8));
        let m = len_bytes.len();
        let mut i: usize = 0;
        while i < m
            invariant
                i <= m == len_bytes@.len(),
                out@ == seq![126u8, (0xf7 + len_bytes@.len()) as u8] + len_bytes@.take(i as int),
            decreases m - i,
        {
            out.push(len_bytes[i]);
            proof {
                assert(len_bytes@.take(i as int).push(len_bytes@[i as int]) =~= len_bytes@.take(
                    i + 1));
                assert(out@ =~= seq![126u8, (0xf7 + len_bytes@.len()) as u8] + len_bytes@.take(
                    i + 1));
            }
            i = i + 1;
        }
        proof {
            assert(len_bytes@.take(m as int) =~= len_bytes@);
        }
    }
    let ghost mid = out@;
    let n = payload.len();
    let mut i: usize = 0;
    while i < n
        invariant
            i <= n == payload@.len(),
            out@ == mid + payload@.take(i as int),
        decreases n - i,
    {
        out.push(payload[i]);
        proof {
            assert(payload@.take(i as int).push(payload@[i as int]) =~= payload@.take(i + 1));
            assert(out@ =~= mid + payload@.take(i + 1));
        }
        i = i + 1;
    }
    proof {
        assert(payload@.take(n as int) =~= payload@);
        assert(out@ =~= deposit_envelope(*tx));
    }
    out
}

} // verus!
