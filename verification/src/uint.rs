//! Unsigned 256-bit words: balances, storage slot keys and values, and
//! 32-byte hashes, held as two 128-bit limbs.

use vstd::prelude::*;

verus! {

/// 2^128, the weight of the high limb.
pub open spec fn pow128() -> nat {
    0x1_0000_0000_0000_0000_0000_0000_0000_0000nat
}

/// 2^256, the modulus of wrapping 256-bit arithmetic.
pub open spec fn pow256() -> nat {
    pow128() * pow128()
}

/// An unsigned 256-bit integer: `hi * 2^128 + lo`.
#[derive(Clone, Copy, Debug, PartialEq, Eq, Structural, Hash)]
pub struct U256 {
    pub hi: u128,
    pub lo: u128,
}

impl U256 {
    /// The mathematical value of this word.
    pub open spec fn as_nat(self) -> nat {
        self.hi as nat * pow128() + self.lo as nat
    }

    pub fn zero() -> (r: U256)
        ensures
            r.as_nat() == 0,
    {
        U256 { hi: 0, lo: 0 }
    }

    pub fn max_value() -> (r: U256)
        ensures
            r.as_nat() == pow256() - 1,
    {
        U256 { hi: u128::MAX, lo: u128::MAX }
    }

    pub fn from_u128(v: u128) -> (r: U256)
        ensures
            r.as_nat() == v as nat,
    {
        U256 { hi: 0, lo: v }
    }

    pub fn from_u64(v: u64) -> (r: U256)
        ensures
            r.as_nat() == v as nat,
    {
        U256 { hi: 0, lo: v as u128 }
    }

    pub fn is_zero(self) -> (r: bool)
        ensures
            r == (self.as_nat() == 0),
    {
        self.hi == 0 && self.lo == 0
    }

    /// Two words are equal exactly when their values are.
    pub proof fn lemma_eq_value(a: U256, b: U256)
        ensures
            (a == b) <==> (a.as_nat() == b.as_nat()),
    {
        if a.as_nat() == b.as_nat() {
            assert(a.hi == b.hi && a.lo == b.lo) by (nonlinear_arith)
                requires
                    a.hi as nat * pow128() + a.lo as nat == b.hi as nat * pow128() + b.lo as nat,
                    a.lo < pow128(),
                    b.lo < pow128(),
            ;
        }
    }

    pub fn lt(self, other: U256) -> (r: bool)
        ensures
            r == (self.as_nat() < other.as_nat()),
    {
        proof {
            assert((self.hi < other.hi || (self.hi == other.hi && self.lo < other.lo)) == (
            self.as_nat() < other.as_nat())) by (nonlinear_arith)
                requires
                    self.as_nat() == self.hi as nat * pow128() + self.lo as nat,
                    other.as_nat() == other.hi as nat * pow128() + other.lo as nat,
                    self.lo < pow128(),
                    other.lo < pow128(),
            ;
        }
        self.hi < other.hi || (self.hi == other.hi && self.lo < other.lo)
    }

    pub fn le(self, other: U256) -> (r: bool)
        ensures
            r == (self.as_nat() <= other.as_nat()),
    {
        !other.lt(self)
    }

    /// Addition modulo 2^256.
    pub fn wrapping_add(self, other: U256) -> (r: U256)
        ensures
            self.as_nat() + other.as_nat() < pow256() ==> r.as_nat() == self.as_nat()
                + other.as_nat(),
            self.as_nat() + other.as_nat() >= pow256() ==> r.as_nat() + pow256() == self.as_nat()
                + other.as_nat(),
    {
        let lo = self.lo.wrapping_add(other.lo);
        let carry: u128 = if lo < self.lo {
            1
        } else {
            0
        };
        let hi = self.hi.wrapping_add(other.hi).wrapping_add(carry);
        proof {
            let p = pow128();
            let hwrap: nat = if self.hi as nat + other.hi as nat + carry as nat >= p {
                1nat
            } else {
                0nat
            };
            assert(lo as nat + carry as nat * p == self.lo as nat + other.lo as nat);
            assert(hi as nat + hwrap * p == self.hi as nat + other.hi as nat + carry as nat);
            assert((self.as_nat() + other.as_nat() < p * p ==> (hi as nat) * p + lo as nat
                == self.as_nat() + other.as_nat()) && (self.as_nat() + other.as_nat() >= p * p
                ==> (hi as nat) * p + lo as nat + p * p == self.as_nat() + other.as_nat()))
                by (nonlinear_arith)
                requires
                    lo as nat + carry as nat * p == self.lo as nat + other.lo as nat,
                    hi as nat + hwrap * p == self.hi as nat + other.hi as nat + carry as nat,
                    hwrap == 0 || hwrap == 1,
                    self.as_nat() == self.hi as nat * p + self.lo as nat,
                    other.as_nat() == other.hi as nat * p + other.lo as nat,
                    (lo as nat) < p,
                    (hi as nat) < p,
                    (self.lo as nat) < p,
                    (other.lo as nat) < p,
            ;
            assert(p * p == pow256());
        }
        U256 { hi, lo }
    }

    /// Subtraction modulo 2^256.
    pub fn wrapping_sub(self, other: U256) -> (r: U256)
        ensures
            self.as_nat() >= other.as_nat() ==> r.as_nat() == self.as_nat() - other.as_nat(),
            self.as_nat() < other.as_nat() ==> r.as_nat() == self.as_nat() - other.as_nat()
                + pow256(),
    {
        let lo = self.lo.wrapping_sub(other.lo);
        let borrow: u128 = if self.lo < other.lo {
            1
        } else {
            0
        };
        let hi = self.hi.wrapping_sub(other.hi).wrapping_sub(borrow);
        proof {
            let p = pow128();
            let hwrap: nat = if self.hi as nat >= other.hi as nat + borrow as nat {
                0nat
            } else {
                1nat
            };
            assert(lo as nat == self.lo as nat + borrow as nat * p - other.lo as nat);
            assert(hi as nat == self.hi as nat + hwrap * p - other.hi as nat - borrow as nat);
            assert((self.as_nat() >= other.as_nat() ==> (hi as nat) * p + lo as nat
                == self.as_nat() - other.as_nat()) && (self.as_nat() < other.as_nat() ==> (
            hi as nat) * p + lo as nat == self.as_nat() - other.as_nat() + p * p))
                by (nonlinear_arith)
                requires
                    lo as nat == self.lo as nat + borrow as nat * p - other.lo as nat,
                    hi as nat == self.hi as nat + hwrap * p - other.hi as nat - borrow as nat,
                    hwrap == 0 || hwrap == 1,
                    borrow == 0 || borrow == 1,
                    borrow == 1 <==> (self.lo as nat) < other.lo as nat,
                    hwrap == 1 <==> (self.hi as nat) < other.hi as nat + borrow as nat,
                    self.as_nat() == self.hi as nat * p + self.lo as nat,
                    other.as_nat() == other.hi as nat * p + other.lo as nat,
                    (lo as nat) < p,
                    (hi as nat) < p,
                    (self.lo as nat) < p,
                    (other.lo as nat) < p,
            ;
            assert(p * p == pow256());
        }
        U256 { hi, lo }
    }

    /// `|self - other|`.
    pub fn abs_diff(self, other: U256) -> (r: U256)
        ensures
            self.as_nat() >= other.as_nat() ==> r.as_nat() == self.as_nat() - other.as_nat(),
            self.as_nat() < other.as_nat() ==> r.as_nat() == other.as_nat() - self.as_nat(),
    {
        if other.le(self) {
            self.wrapping_sub(other)
        } else {
            other.wrapping_sub(self)
        }
    }

    /// `self - other`, floored at zero.
    pub fn saturating_sub(self, other: U256) -> (r: U256)
        ensures
            self.as_nat() >= other.as_nat() ==> r.as_nat() == self.as_nat() - other.as_nat(),
            self.as_nat() < other.as_nat() ==> r.as_nat() == 0,
    {
        if other.le(self) {
            self.wrapping_sub(other)
        } else {
            U256 { hi: 0, lo: 0 }
        }
    }

    /// Product with a 64-bit factor; the low limb must be the whole value,
    /// as it is for every word built from a 128-bit gas price.
    pub fn mul_u64(self, m: u64) -> (r: U256)
        requires
            self.hi == 0,
        ensures
            r.as_nat() == self.as_nat() * m as nat,
    {
        let d: u128 = 0x1_0000_0000_0000_0000;
        let a0: u128 = self.lo % d;
        let a1: u128 = self.lo / d;
        proof {
            vstd::arithmetic::div_mod::lemma_fundamental_div_mod(self.lo as int, d as int);
            assert(a0 * (m as u128) < d * d) by (nonlinear_arith)
                requires
                    a0 < d,
                    (m as u128) < d,
            ;
            assert(a1 * (m as u128) < d * d) by (nonlinear_arith)
                requires
                    a1 < d,
                    (m as u128) < d,
            ;
        }
        let p0: u128 = a0 * (m as u128);
        let p1: u128 = a1 * (m as u128);
        let p1lo: u128 = p1 % d;
        let p1hi: u128 = p1 / d;
        proof {
            vstd::arithmetic::div_mod::lemma_fundamental_div_mod(p1 as int, d as int);
            assert(p1lo * d < d * d) by (nonlinear_arith)
                requires
                    p1lo < d,
            ;
        }
        let shifted: u128 = p1lo * d;
        let lo = p0.wrapping_add(shifted);
        let carry: u128 = if lo < p0 {
            1
        } else {
            0
        };
        let hi = p1hi + carry;
        proof {
            let p = pow128();
            assert(lo as nat + carry as nat * p == p0 as nat + shifted as nat);
            assert((hi as nat) * p + lo as nat == self.lo as nat * m as nat) by (nonlinear_arith)
                requires
                    lo as nat + carry as nat * p == p0 as nat + shifted as nat,
                    hi as nat == p1hi as nat + carry as nat,
                    shifted as nat == p1lo as nat * d as nat,
                    p0 as nat == a0 as nat * m as nat,
                    p1 as nat == a1 as nat * m as nat,
                    p1 as nat == d as nat * p1hi as nat + p1lo as nat,
                    self.lo as nat == d as nat * a1 as nat + a0 as nat,
                    p == d as nat * d as nat,
            ;
        }
        U256 { hi, lo }
    }

    /// The smaller of the two words.
    pub fn min_of(self, other: U256) -> (r: U256)
        ensures
            r.as_nat() == if self.as_nat() <= other.as_nat() {
                self.as_nat()
            } else {
                other.as_nat()
            },
    {
        proof {
            U256::lemma_eq_value(self, other);
        }
        if self.le(other) {
            self
        } else {
            other
        }
    }
}

/// The word whose value is `n`, for `n` below 2^256.
pub open spec fn u256_of_nat(n: nat) -> U256 {
    U256 { hi: (n / pow128()) as u128, lo: (n % pow128()) as u128 }
}

/// A word is determined by its value.
pub proof fn lemma_u256_of_nat(r: U256, n: nat)
    requires
        r.as_nat() == n,
    ensures
        r == u256_of_nat(n),
{
    assert(n / pow128() == r.hi as nat && n % pow128() == r.lo as nat) by (nonlinear_arith)
        requires
            n == r.hi as nat * pow128() + r.lo as nat,
            (r.lo as nat) < pow128(),
    ;
}

} // verus!
