//! Receipt encoding: the logs bloom filter, the typed wire encoding of a
//! receipt, and the receipts root of a block.

use vstd::prelude::*;
use crate::bytes::be_bytes_of;
use crate::keccak::keccak_of;
use crate::primitives::SpecId;
use crate::types::Address;
use crate::uint::U256;
use crate::vm::{LogL, PevmTxExecutionResult, Receipt};

verus! {

/// The single-bit mask for a position inside a byte.
pub open spec fn mask_of(r: int) -> u8 {
    if r == 0 {
        1
    } else if r == 1 {
        2
    } else if r == 2 {
        4
    } else if r == 3 {
        8
    } else if r == 4 {
        16
    } else if r == 5 {
        32
    } else if r == 6 {
        64
    } else {
        128
    }
}

fn mask_of_exec(r: usize) -> (m: u8)
    requires
        r < 8,
    ensures
        m == mask_of(r as int),
{
    if r == 0 {
        1
    } else if r == 1 {
        2
    } else if r == 2 {
        4
    } else if r == 3 {
        8
    } else if r == 4 {
        16
    } else if r == 5 {
        32
    } else if r == 6 {
        64
    } else {
        128
    }
}

/// Sets one of the 2048 bloom bits.
pub open spec fn set_bloom_bit(bloom: Seq<u8>, bit: int) -> Seq<u8> {
    let index = 255 - bit / 8;
    bloom.update(index, bloom[index] | mask_of(bit % 8))
}

/// Folds one item into the filter: three 11-bit positions drawn from the
/// item's digest.
pub open spec fn accrue_item(bloom: Seq<u8>, item: Seq<u8>) -> Seq<u8> {
    let d = be_bytes_of(keccak_of(item), 32);
    let b0 = (d[1] as int) + 256 * ((d[0] as int) % 8);
    let b1 = (d[3] as int) + 256 * ((d[2] as int) % 8);
    let b2 = (d[5] as int) + 256 * ((d[4] as int) % 8);
    set_bloom_bit(set_bloom_bit(set_bloom_bit(bloom, b0), b1), b2)
}

/// Folds a log's topics into the filter, from position `k` on.
pub open spec fn accrue_topics(bloom: Seq<u8>, topics: Seq<U256>, k: int) -> Seq<u8>
    decreases topics.len() - k,
{
    if k < 0 || k >= topics.len() {
        bloom
    } else {
        accrue_topics(accrue_item(bloom, topics[k].be_bytes()), topics, k + 1)
    }
}

/// Folds one log into the filter: its address, then its topics.
pub open spec fn accrue_log(bloom: Seq<u8>, log: LogL) -> Seq<u8> {
    accrue_topics(accrue_item(bloom, log.address.be_bytes()), log.topics@, 0)
}

/// Folds the logs into the filter, from position `i` on.
pub open spec fn bloom_from(bloom: Seq<u8>, logs: Seq<LogL>, i: int) -> Seq<u8>
    decreases logs.len() - i,
{
    if i < 0 || i >= logs.len() {
        bloom
    } else {
        bloom_from(accrue_log(bloom, logs[i]), logs, i + 1)
    }
}

/// The 256-byte bloom filter of a list of logs.
pub open spec fn logs_bloom(logs: Seq<LogL>) -> Seq<u8> {
    bloom_from(be_bytes_of(0, 256), logs, 0)
}

/// A word's value determines its 32 big-endian bytes.
proof fn lemma_u256_be_bytes(r: U256, d: nat)
    requires
        r.as_nat() == d,
    ensures
        r.be_bytes() == be_bytes_of(d, 32),
{
    crate::bytes::lemma_pow256_16();
    lemma_be_split(r.hi as nat, r.lo as nat, 16, 16);
}

/// Fixed-width big-endian bytes split at a limb boundary.
proof fn lemma_be_split(a: nat, b: nat, n: nat, k: nat)
    requires
        b < vstd::arithmetic::power::pow(256, k),
    ensures
        be_bytes_of((a * vstd::arithmetic::power::pow(256, k) + b) as nat, (n + k) as nat)
            == be_bytes_of(a, n) + be_bytes_of(b, k),
    decreases k,
{
    let p = vstd::arithmetic::power::pow(256, k);
    if k == 0 {
        vstd::arithmetic::power::lemma_pow0(256);
        assert(b == 0);
        assert(be_bytes_of((a * 1 + 0) as nat, n) =~= be_bytes_of(a, n) + be_bytes_of(0, 0));
    } else {
        vstd::arithmetic::power::lemma_pow1(256);
        vstd::arithmetic::power::lemma_pow_adds(256, (k - 1) as nat, 1);
        let pp = vstd::arithmetic::power::pow(256, (k - 1) as nat);
        let x = a * p + b;
        assert(p == pp * 256);
        assert(x == (a * pp) * 256 + b) by (nonlinear_arith)
            requires
                x == a * p + b,
                p == pp * 256,
        ;
        assert(x % 256 == b % 256 && x / 256 == a * pp + b / 256) by (nonlinear_arith)
            requires
                x == (a * pp) * 256 + b,
                b >= 0,
        ;
        vstd::arithmetic::power::lemma_pow_positive(256, (k - 1) as nat);
        assert(b / 256 < pp) by (nonlinear_arith)
            requires
                b < pp * 256,
                pp > 0,
        ;
        lemma_be_split(a, (b / 256) as nat, n, (k - 1) as nat);
        assert(be_bytes_of(x as nat, (n + k) as nat) =~= be_bytes_of(a, n) + be_bytes_of(b, k)) by {
            assert(be_bytes_of(x as nat, (n + k) as nat) == be_bytes_of(
                (x / 256) as nat,
                (n + k - 1) as nat,
            ) + seq![(x % 256) as u8]);
            assert(be_bytes_of((x / 256) as nat, (n + k - 1) as nat) == be_bytes_of(a, n)
                + be_bytes_of((b / 256) as nat, (k - 1) as nat));
            assert(be_bytes_of(b, k) == be_bytes_of((b / 256) as nat, (k - 1) as nat) + seq![
                (b % 256) as u8,
            ]);
        }
    }
}

/// A byte of a fixed-width big-endian encoding, by position.
proof fn lemma_be_byte_at(x: nat, n: nat, i: int)
    requires
        0 <= i < n,
    ensures
        be_bytes_of(x, n)[i] == (((x as int) / (vstd::arithmetic::power::pow(
            256,
            (n - 1 - i) as nat,
        ) as int)) % 256) as u8,
    decreases n,
{
    crate::bytes::lemma_be_bytes_len(x, n);
    if i == n - 1 {
        vstd::arithmetic::power::lemma_pow0(256);
        assert(be_bytes_of(x, n)[i] == (x % 256) as u8);
        assert(x / 1 == x) by (nonlinear_arith);
    } else {
        crate::bytes::lemma_be_bytes_len((x / 256) as nat, (n - 1) as nat);
        assert(be_bytes_of(x, n)[i] == be_bytes_of((x / 256) as nat, (n - 1) as nat)[i]);
        lemma_be_byte_at((x / 256) as nat, (n - 1) as nat, i);
        let e = (n - 1 - i) as nat;
        vstd::arithmetic::power::lemma_pow1(256);
        vstd::arithmetic::power::lemma_pow_adds(256, (e - 1) as nat, 1);
        let pe = vstd::arithmetic::power::pow(256, e);
        let pp = vstd::arithmetic::power::pow(256, (e - 1) as nat);
        assert(pe == pp * 256);
        vstd::arithmetic::power::lemma_pow_positive(256, (e - 1) as nat);
        vstd::arithmetic::div_mod::lemma_div_denominator(x as int, 256, pp as int);
        assert((x as int / 256) / (pp as int) == x as int / (256 * pp as int));
        assert(x as int / 256 == ((x / 256) as nat) as int);
        assert(256 * pp == pe) by (nonlinear_arith)
            requires
                pe == pp * 256,
        ;
    }
}

/// Folds one item into the filter.
fn accrue_item_exec(bloom: &mut Vec<u8>, item: &Vec<u8>)
    requires
        old(bloom)@.len() == 256,
    ensures
        final(bloom)@ == accrue_item(old(bloom)@, item@),
        final(bloom)@.len() == 256,
{
    let d = crate::keccak::keccak256(item);
    proof {
        lemma_u256_be_bytes(d, keccak_of(item@));
        crate::bytes::lemma_be_bytes_len(d.hi as nat, 16);
        crate::bytes::lemma_be_bytes_len(d.lo as nat, 16);
        let bytes = be_bytes_of(keccak_of(item@), 32);
        lemma_be_byte_at(d.hi as nat, 16, 0);
        lemma_be_byte_at(d.hi as nat, 16, 1);
        lemma_be_byte_at(d.hi as nat, 16, 2);
        lemma_be_byte_at(d.hi as nat, 16, 3);
        lemma_be_byte_at(d.hi as nat, 16, 4);
        lemma_be_byte_at(d.hi as nat, 16, 5);
        reveal_with_fuel(vstd::arithmetic::power::pow, 16);
    }
    let b0: [u8; 6] = [
        ((d.hi / 0x100_0000_0000_0000_0000_0000_0000_0000) % 256) as u8,
        ((d.hi / 0x1_0000_0000_0000_0000_0000_0000_0000) % 256) as u8,
        ((d.hi / 0x100_0000_0000_0000_0000_0000_0000) % 256) as u8,
        ((d.hi / 0x1_0000_0000_0000_0000_0000_0000) % 256) as u8,
        ((d.hi / 0x100_0000_0000_0000_0000_0000) % 256) as u8,
        ((d.hi / 0x1_0000_0000_0000_0000_0000) % 256) as u8,
    ];
    set_bit_exec(bloom, (b0[1] as usize) + 256 * ((b0[0] as usize) % 8));
    set_bit_exec(bloom, (b0[3] as usize) + 256 * ((b0[2] as usize) % 8));
    set_bit_exec(bloom, (b0[5] as usize) + 256 * ((b0[4] as usize) % 8));
}

/// Sets one of the 2048 bloom bits.
fn set_bit_exec(bloom: &mut Vec<u8>, bit: usize)
    requires
        old(bloom)@.len() == 256,
        bit < 2048,
    ensures
        final(bloom)@ == set_bloom_bit(old(bloom)@, bit as int),
        final(bloom)@.len() == 256,
{
    let index = 255 - bit / 8;
    let m = mask_of_exec(bit % 8);
    let cur = bloom[index];
    bloom.set(index, cur | m);
}

/// Computes the 256-byte bloom filter of a list of logs.
pub fn logs_bloom_exec(logs: &Vec<LogL>) -> (r: Vec<u8>)
    ensures
        r@ == logs_bloom(logs@),
        r@.len() == 256,
{
    let mut bloom: Vec<u8> = Vec::new();
    let mut z: usize = 0;
    while z < 256
        invariant
            z <= 256,
            bloom@ =~= be_bytes_of(0, z as nat),
        decreases 256 - z,
    {
        bloom.push(0);
        proof {
            crate::bytes::lemma_be_bytes_len(0, z as nat);
            assert(be_bytes_of(0, (z + 1) as nat) =~= be_bytes_of(0, z as nat) + seq![0u8]);
        }
        z = z + 1;
    }
    proof {
        crate::bytes::lemma_be_bytes_len(0, 256);
    }
    let n = logs.len();
    let mut i: usize = 0;
    while i < n
        invariant
            i <= n == logs@.len(),
            bloom@.len() == 256,
            logs_bloom(logs@) == bloom_from(bloom@, logs@, i as int),
        decreases n - i,
    {
        let log = &logs[i];
        let mut addr_bytes: Vec<u8> = Vec::new();
        log.address.push_be_bytes(&mut addr_bytes);
        proof {
            assert(addr_bytes@ =~= log.address.be_bytes());
        }
        accrue_item_exec(&mut bloom, &addr_bytes);
        let m = log.topics.len();
        let mut k: usize = 0;
        while k < m
            invariant
                k <= m == log.topics@.len(),
                0 <= i < logs@.len(),
                log == &logs@[i as int],
                bloom@.len() == 256,
                logs_bloom(logs@) == bloom_from(
                    accrue_topics(bloom@, log.topics@, k as int),
                    logs@,
                    i + 1,
                ),
            decreases m - k,
        {
            let mut topic_bytes: Vec<u8> = Vec::new();
            log.topics[k].push_be_bytes(&mut topic_bytes);
            proof {
                assert(topic_bytes@ =~= log.topics@[k as int].be_bytes());
            }
            accrue_item_exec(&mut bloom, &topic_bytes);
            k = k + 1;
        }
        i = i + 1;
    }
    bloom
}

/// The encoded topics of a log, from position `k` on: each a 32-byte
/// string.
pub open spec fn topics_payload(topics: Seq<U256>, k: int) -> Seq<u8>
    decreases topics.len() - k,
{
    if k < 0 || k >= topics.len() {
        Seq::empty()
    } else {
        crate::rlp::rlp_str(topics[k].be_bytes()) + topics_payload(topics, k + 1)
    }
}

/// The wire encoding of one log: its address, topics and data as a list.
pub open spec fn rlp_log(log: LogL) -> Seq<u8> {
    crate::rlp::rlp_list(
        crate::rlp::rlp_str(log.address.be_bytes()) + crate::rlp::rlp_list(
            topics_payload(log.topics@, 0),
        ) + crate::rlp::rlp_str(log.data@),
    )
}

/// The encoded logs of a receipt, from position `i` on.
pub open spec fn logs_payload(logs: Seq<LogL>, i: int) -> Seq<u8>
    decreases logs.len() - i,
{
    if i < 0 || i >= logs.len() {
        Seq::empty()
    } else {
        rlp_log(logs[i]) + logs_payload(logs, i + 1)
    }
}

/// The payload of a receipt's wire encoding: status, cumulative gas, the
/// logs bloom, the logs, and — for a deposit after its fork — the deposit
/// nonce and receipt version.
pub open spec fn receipt_payload(r: Receipt, deposit: Option<(u64, u64)>) -> Seq<u8> {
    crate::rlp::rlp_bool(r.status) + crate::rlp::rlp_int(r.cumulative_gas_used as nat)
        + crate::rlp::rlp_str(logs_bloom(r.logs@)) + crate::rlp::rlp_list(
        logs_payload(r.logs@, 0),
    ) + (match deposit {
        Some((n, v)) => crate::rlp::rlp_int(n as nat) + crate::rlp::rlp_int(v as nat),
        None => Seq::empty(),
    })
}

/// The typed wire encoding of a receipt: its transaction's type byte, if
/// any, then the field list.
pub open spec fn receipt_2718(tx_type: u8, r: Receipt, deposit: Option<(u64, u64)>) -> Seq<u8> {
    (if tx_type == 0 {
        Seq::empty()
    } else {
        seq![tx_type]
    }) + crate::rlp::rlp_list(receipt_payload(r, deposit))
}

/// First match in a state-transition list.
pub open spec fn state_acct(
    s: Seq<(Address, Option<crate::vm::EvmAccountL>)>,
    a: Address,
) -> Option<Option<crate::vm::EvmAccountL>>
    decreases s.len(),
{
    if s.len() == 0 {
        None
    } else if s[0].0 == a {
        Some(s[0].1)
    } else {
        state_acct(s.skip(1), a)
    }
}

/// Appends the wire encoding of one log.
fn push_rlp_log(out: &mut Vec<u8>, log: &LogL)
    ensures
        final(out)@ == old(out)@ + rlp_log(*log),
{
    let mut payload: Vec<u8> = Vec::new();
    let mut addr_bytes: Vec<u8> = Vec::new();
    log.address.push_be_bytes(&mut addr_bytes);
    proof {
        assert(addr_bytes@ =~= log.address.be_bytes());
    }
    crate::rlp::push_rlp_str(&mut payload, &addr_bytes);
    let mut topics: Vec<u8> = Vec::new();
    let m = log.topics.len();
    let mut k: usize = 0;
    while k < m
        invariant
            k <= m == log.topics@.len(),
            topics_payload(log.topics@, 0) == topics@ + topics_payload(log.topics@, k as int),
        decreases m - k,
    {
        let mut tb: Vec<u8> = Vec::new();
        log.topics[k].push_be_bytes(&mut tb);
        proof {
            assert(tb@ =~= log.topics@[k as int].be_bytes());
        }
        crate::rlp::push_rlp_str(&mut topics, &tb);
        proof {
            assert(topics_payload(log.topics@, 0) =~= topics@ + topics_payload(
                log.topics@,
                k + 1,
            ));
        }
        k = k + 1;
    }
    proof {
        assert(topics@ + topics_payload(log.topics@, m as int) =~= topics@);
    }
    crate::rlp::push_rlp_list_from(&mut payload, &topics);
    crate::rlp::push_rlp_str(&mut payload, &log.data);
    proof {
        assert(payload@ =~= crate::rlp::rlp_str(log.address.be_bytes()) + crate::rlp::rlp_list(
            topics_payload(log.topics@, 0),
        ) + crate::rlp::rlp_str(log.data@));
    }
    crate::rlp::push_rlp_list_from(out, &payload);
}

/// Encodes a receipt for the receipts trie: its type byte, if any, then
/// the status, cumulative gas, bloom, logs, and any deposit fields.
pub fn encode_receipt_2718(tx_type: u8, r: &Receipt, deposit: Option<(u64, u64)>) -> (out: Vec<
    u8,
>)
    ensures
        out@ == receipt_2718(tx_type, *r, deposit),
{
    let mut payload: Vec<u8> = Vec::new();
    crate::rlp::push_rlp_bool(&mut payload, r.status);
    crate::rlp::push_rlp_uint(&mut payload, r.cumulative_gas_used);
    let bloom = logs_bloom_exec(&r.logs);
    crate::rlp::push_rlp_str(&mut payload, &bloom);
    let mut logs_buf: Vec<u8> = Vec::new();
    let n = r.logs.len();
    let mut i: usize = 0;
    while i < n
        invariant
            i <= n == r.logs@.len(),
            logs_payload(r.logs@, 0) == logs_buf@ + logs_payload(r.logs@, i as int),
        decreases n - i,
    {
        push_rlp_log(&mut logs_buf, &r.logs[i]);
        proof {
            assert(logs_payload(r.logs@, 0) =~= logs_buf@ + logs_payload(r.logs@, i + 1));
        }
        i = i + 1;
    }
    proof {
        assert(logs_buf@ + logs_payload(r.logs@, n as int) =~= logs_buf@);
    }
    crate::rlp::push_rlp_list_from(&mut payload, &logs_buf);
    match deposit {
        Some((dn, dv)) => {
            crate::rlp::push_rlp_uint(&mut payload, dn as u128);
            crate::rlp::push_rlp_uint(&mut payload, dv as u128);
        },
        None => {},
    }
    proof {
        assert(payload@ =~= receipt_payload(*r, deposit));
    }
    let mut out: Vec<u8> = Vec::new();
    if tx_type != 0 {
        out.push(tx_type);
    }
    crate::rlp::push_rlp_list_from(&mut out, &payload);
    proof {
        assert(out@ =~= receipt_2718(tx_type, *r, deposit));
    }
    out
}

/// The transaction type a wire transaction declares, defaulting to the
/// legacy type.
pub open spec fn tx_type_of(tx: crate::primitives::Transaction) -> u8 {
    match tx.transaction_type {
        Some(t) => t,
        None => 0,
    }
}

/// The deposit receipt fields a result carries after the fork that added
/// them: the sender's nonce before its bump, and version one.
pub open spec fn deposit_fields_of(
    spec_id: SpecId,
    tx_type: u8,
    from: Address,
    result: PevmTxExecutionResult,
) -> Option<(u64, u64)> {
    if tx_type == 126 && spec_id.rank() >= SpecId::CANYON.rank() {
        match state_acct(result.state@, from) {
            Some(Some(acct)) => Some(
                (
                    if acct.nonce >= 1 {
                        (acct.nonce - 1) as u64
                    } else {
                        u64::MAX
                    },
                    1u64,
                ),
            ),
            _ => Some((0u64, 1u64)),
        }
    } else {
        None
    }
}

/// The wire encodings of a block's receipts, in block order.
pub open spec fn receipt_encodings(
    spec_id: SpecId,
    txs: Seq<crate::primitives::Transaction>,
    results: Seq<PevmTxExecutionResult>,
) -> Seq<Seq<u8>> {
    Seq::new(
        results.len(),
        |i: int|
            receipt_2718(
                tx_type_of(txs[i]),
                results[i].receipt,
                deposit_fields_of(spec_id, tx_type_of(txs[i]), txs[i].from, results[i]),
            ),
    )
}

/// Finds the transition recorded for `a`.
pub fn find_state_acct<'a>(
    state: &'a Vec<(Address, Option<crate::vm::EvmAccountL>)>,
    a: &Address,
) -> (r: Option<&'a Option<crate::vm::EvmAccountL>>)
    ensures
        match r {
            Some(t) => state_acct(state@, *a) == Some(*t),
            None => state_acct(state@, *a) is None,
        },
{
    let n = state.len();
    let mut i: usize = 0;
    proof {
        assert(state@.skip(0) =~= state@);
    }
    while i < n
        invariant
            i <= n == state@.len(),
            state_acct(state@, *a) == state_acct(state@.skip(i as int), *a),
        decreases n - i,
    {
        proof {
            assert(state@.skip(i as int)[0] == state@[i as int]);
            assert(state@.skip(i as int).skip(1) =~= state@.skip(i + 1));
        }
        if state[i].0 == *a {
            return Some(&state[i].1);
        }
        i = i + 1;
    }
    None
}

/// The root of the trie holding the given already-encoded values under
/// their index keys.
pub uninterp spec fn trie_root_of(items: Seq<Seq<u8>>) -> nat;

/// Relies on alloy_trie::root::ordered_trie_root_encoded: the root of the
/// trie over the index-keyed items is a function of the items alone; its
/// 32 bytes are read back big-endian.
#[verifier::external_body]
pub(crate) fn ordered_trie_root(items: &Vec<Vec<u8>>) -> (r: U256)
    ensures
        r.as_nat() == trie_root_of(items@.map_values(|v: Vec<u8>| v@)),
{
    let digest = alloy_trie::root::ordered_trie_root_encoded(items.as_slice());
    let mut hi: u128 = 0;
    let mut lo: u128 = 0;
    for i in 0..16 {
        hi = (hi << 8) | (digest.0[i] as u128);
        lo = (lo << 8) | (digest.0[i + 16] as u128);
    }
    U256 { hi, lo }
}

} // verus!
