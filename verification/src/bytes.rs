//! Big-endian byte encodings of machine integers, used to build hash
//! preimages and wire encodings.

use vstd::prelude::*;
use crate::uint::U256;

verus! {

/// 256^16 is 2^128.
pub proof fn lemma_pow256_16()
    ensures
        vstd::arithmetic::power::pow(256, 16) == 0x1_0000_0000_0000_0000_0000_0000_0000_0000nat,
{
    reveal_with_fuel(vstd::arithmetic::power::pow, 17);
}

/// The `n`-byte big-endian encoding of `x` (modulo 256^n).
pub open spec fn be_bytes_of(x: nat, n: nat) -> Seq<u8>
    decreases n,
{
    if n == 0 {
        Seq::empty()
    } else {
        be_bytes_of(x / 256, (n - 1) as nat) + seq![(x % 256) as u8]
    }
}

/// The value a big-endian byte string stands for.
pub open spec fn be_val(s: Seq<u8>) -> nat
    decreases s.len(),
{
    if s.len() == 0 {
        0
    } else {
        be_val(s.drop_last()) * 256 + s.last() as nat
    }
}

/// Appends the `n`-byte big-endian encoding of `x`.
pub fn push_be(out: &mut Vec<u8>, x: u128, n: usize)
    ensures
        final(out)@ == old(out)@ + be_bytes_of(x as nat, n as nat),
    decreases n,
{
    if n == 0 {
        proof {
            assert(old(out)@ + be_bytes_of(x as nat, 0) =~= old(out)@);
        }
    } else {
        push_be(out, x / 256, n - 1);
        out.push((x % 256) as u8);
        proof {
            assert(final(out)@ =~= old(out)@ + be_bytes_of(x as nat, n as nat));
        }
    }
}

/// Appends `n` zero bytes.
pub fn push_zeros(out: &mut Vec<u8>, n: usize)
    ensures
        final(out)@ == old(out)@ + be_bytes_of(0, n as nat),
{
    push_be(out, 0, n)
}

pub proof fn lemma_be_bytes_len(x: nat, n: nat)
    ensures
        be_bytes_of(x, n).len() == n,
    decreases n,
{
    if n > 0 {
        lemma_be_bytes_len(x / 256, (n - 1) as nat);
    }
}

/// `be_val` splits over concatenation.
pub proof fn lemma_be_val_concat(a: Seq<u8>, b: Seq<u8>)
    ensures
        be_val(a + b) == be_val(a) * vstd::arithmetic::power::pow(256, b.len()) + be_val(b),
    decreases b.len(),
{
    if b.len() == 0 {
        assert(a + b =~= a);
        vstd::arithmetic::power::lemma_pow0(256);
    } else {
        lemma_be_val_concat(a, b.drop_last());
        assert((a + b).drop_last() =~= a + b.drop_last());
        assert((a + b).last() == b.last());
        vstd::arithmetic::power::lemma_pow1(256);
        vstd::arithmetic::power::lemma_pow_adds(256, (b.len() - 1) as nat, 1);
        let pprev = vstd::arithmetic::power::pow(256, (b.len() - 1) as nat);
        assert((be_val(a) * pprev + be_val(b.drop_last())) * 256 == be_val(a) * (pprev * 256)
            + be_val(b.drop_last()) * 256) by (nonlinear_arith);
    }
}

/// Reads `end - start` big-endian bytes as a value; at most 16 bytes.
pub fn read_be_u128(bytes: &Vec<u8>, start: usize, end: usize) -> (r: u128)
    requires
        start <= end <= bytes@.len(),
        end - start <= 16,
    ensures
        r as nat == be_val(bytes@.subrange(start as int, end as int)),
{
    let mut acc: u128 = 0;
    let mut i: usize = start;
    proof {
        assert(bytes@.subrange(start as int, start as int) =~= Seq::<u8>::empty());
        vstd::arithmetic::power::lemma_pow0(256);
    }
    while i < end
        invariant
            start <= i <= end <= bytes@.len(),
            end - start <= 16,
            acc as nat == be_val(bytes@.subrange(start as int, i as int)),
            (acc as nat) < vstd::arithmetic::power::pow(256, (i - start) as nat),
        decreases end - i,
    {
        proof {
            vstd::arithmetic::power::lemma_pow1(256);
            vstd::arithmetic::power::lemma_pow_adds(256, (i - start) as nat, 1);
            vstd::arithmetic::power::lemma_pow_positive(256, (i - start) as nat);
            let p = vstd::arithmetic::power::pow(256, (i - start) as nat);
            assert(acc as nat * 256 + 255 < p * 256) by (nonlinear_arith)
                requires
                    (acc as nat) < p,
                    p > 0,
            ;
            assert(p * 256 <= vstd::arithmetic::power::pow(256, 16)) by {
                vstd::arithmetic::power::lemma_pow_increases(256, (i + 1 - start) as nat, 16);
            }
            lemma_pow256_16();
            assert(bytes@.subrange(start as int, i + 1 as int).drop_last() =~= bytes@.subrange(
                start as int, i as int));
        }
        acc = acc * 256 + (bytes[i] as u128);
        i = i + 1;
    }
    acc
}

impl U256 {
    /// The 32-byte big-endian encoding of this word.
    pub open spec fn be_bytes(self) -> Seq<u8> {
        be_bytes_of(self.hi as nat, 16) + be_bytes_of(self.lo as nat, 16)
    }

    /// Appends the 32-byte big-endian encoding.
    pub fn push_be_bytes(self, out: &mut Vec<u8>)
        ensures
            final(out)@ == old(out)@ + self.be_bytes(),
    {
        push_be(out, self.hi, 16);
        push_be(out, self.lo, 16);
        proof {
            assert(final(out)@ =~= old(out)@ + self.be_bytes());
        }
    }

    /// Reads a word from 32 big-endian bytes.
    pub fn from_be_slice(bytes: &Vec<u8>, start: usize) -> (r: U256)
        requires
            start + 32 <= bytes@.len(),
        ensures
            r.as_nat() == be_val(bytes@.subrange(start as int, start + 32)),
            r.be_bytes() == bytes@.subrange(start as int, start + 32),
    {
        let blen = bytes.len();
        let hi = read_be_u128(bytes, start, start + 16);
        let lo = read_be_u128(bytes, start + 16, start + 32);
        let r = U256 { hi, lo };
        proof {
            let whole = bytes@.subrange(start as int, start + 32);
            let a = bytes@.subrange(start as int, start + 16);
            let b = bytes@.subrange(start + 16, start + 32);
            assert(whole =~= a + b);
            lemma_be_val_concat(a, b);
            lemma_pow256_16();
            lemma_be_bytes_of_val(a);
            lemma_be_bytes_of_val(b);
            assert(r.be_bytes() =~= whole);
        }
        r
    }
}

/// A plain copy of a byte string.
pub fn copy_bytes(v: &Vec<u8>) -> (r: Vec<u8>)
    ensures
        r@ == v@,
{
    let n = v.len();
    let mut r: Vec<u8> = Vec::new();
    let mut i: usize = 0;
    while i < n
        invariant
            i <= n == v@.len(),
            r@ == v@.take(i as int),
        decreases n - i,
    {
        r.push(v[i]);
        proof {
            assert(v@.take(i as int).push(v@[i as int]) =~= v@.take(i + 1));
        }
        i = i + 1;
    }
    proof {
        assert(v@.take(n as int) =~= v@);
    }
    r
}

/// A byte string's value is below 256 to the power of its length.
pub proof fn lemma_be_val_bound(s: Seq<u8>)
    ensures
        be_val(s) < vstd::arithmetic::power::pow(256, s.len()),
    decreases s.len(),
{
    if s.len() == 0 {
        vstd::arithmetic::power::lemma_pow0(256);
    } else {
        lemma_be_val_bound(s.drop_last());
        vstd::arithmetic::power::lemma_pow1(256);
        vstd::arithmetic::power::lemma_pow_adds(256, (s.len() - 1) as nat, 1);
        let p = vstd::arithmetic::power::pow(256, (s.len() - 1) as nat);
        assert(be_val(s.drop_last()) * 256 + 255 < p * 256) by (nonlinear_arith)
            requires
                be_val(s.drop_last()) < p,
        ;
    }
}

/// Decoding then re-encoding a byte string over its own length gives it back.
pub proof fn lemma_be_bytes_of_val(s: Seq<u8>)
    ensures
        be_bytes_of(be_val(s), s.len()) == s,
    decreases s.len(),
{
    if s.len() > 0 {
        let dl = s.drop_last();
        lemma_be_bytes_of_val(dl);
        let v = be_val(s);
        assert(v == be_val(dl) * 256 + s.last());
        assert(v / 256 == be_val(dl) && v % 256 == s.last()) by (nonlinear_arith)
            requires
                v == be_val(dl) * 256 + (s.last() as nat),
                (s.last() as nat) < 256,
        ;
        assert(be_bytes_of(v, s.len()) =~= s);
    } else {
        assert(be_bytes_of(0, 0) =~= s);
    }
}

} // verus!
