//! Unsigned 256-bit arithmetic, just wide enough to hold a chain-work sum:
//! comparison, saturating addition, and doubling, over two `u128` halves.

use vstd::prelude::*;
use vstd::arithmetic::power2::*;

verus! {

/// `2^127` as a `u128`.
pub const HALF128: u128 = 0x8000_0000_0000_0000_0000_0000_0000_0000;

/// An unsigned 256-bit integer: `hi * 2^128 + lo`.
#[derive(Debug, Clone, Copy, PartialEq, Eq, Structural)]
pub struct U256 {
    pub hi: u128,
    pub lo: u128,
}

/// `2^127`, `2^128`, `2^255` and `2^256` written out, so that the halves
/// can be reasoned about with literal coefficients.
pub proof fn lemma_pow2_halves()
    ensures
        pow2(127) == 0x8000_0000_0000_0000_0000_0000_0000_0000,
        pow2(128) == 0x1_0000_0000_0000_0000_0000_0000_0000_0000,
        pow2(255) == 0x1_0000_0000_0000_0000_0000_0000_0000_0000
            * 0x8000_0000_0000_0000_0000_0000_0000_0000,
        pow2(256) == 0x1_0000_0000_0000_0000_0000_0000_0000_0000
            * 0x1_0000_0000_0000_0000_0000_0000_0000_0000,
{
    lemma2_to64();
    lemma2_to64_rest();
    lemma_pow2_adds(64, 63);
    lemma_pow2_adds(64, 64);
    lemma_pow2_adds(128, 127);
    lemma_pow2_adds(128, 128);
}

impl U256 {
    /// The number this value stands for.
    pub open spec fn val(self) -> nat {
        (self.hi * pow2(128) + self.lo) as nat
    }

    /// The largest representable value, `2^256 - 1`.
    pub open spec fn max_val() -> nat {
        (pow2(256) - 1) as nat
    }

    pub fn zero() -> (r: U256)
        ensures
            r.val() == 0,
    {
        let r = U256 { hi: 0, lo: 0 };
        proof {
            lemma_pow2_halves();
        }
        r
    }

    pub fn from_u64(x: u64) -> (r: U256)
        ensures
            r.val() == x,
    {
        let r = U256 { hi: 0, lo: x as u128 };
        proof {
            lemma_pow2_halves();
        }
        r
    }

    /// `2 * self + carry`, defined only below `2^255` so the result fits.
    pub fn double_plus(self, carry: bool) -> (r: U256)
        requires
            self.val() < pow2(255),
        ensures
            r.val() == 2 * self.val() + (if carry {
                1nat
            } else {
                0nat
            }),
    {
        proof {
            lemma_pow2_halves();
        }
        let top = self.lo / HALF128;
        let hi = self.hi * 2 + top;
        let lo = (self.lo % HALF128) * 2 + (if carry {
            1
        } else {
            0
        });
        let r = U256 { hi, lo };
        proof {
            let c: int = if carry {
                1
            } else {
                0
            };
            vstd::arithmetic::div_mod::lemma_fundamental_div_mod(self.lo as int, HALF128 as int);
            assert(self.lo == HALF128 * (self.lo as int / HALF128 as int) + self.lo as int
                % HALF128 as int);
            assert(r.val() == 2 * self.val() + c);
        }
        r
    }

    /// Whether `self <= other`.
    pub fn le(&self, other: &U256) -> (r: bool)
        ensures
            r == (self.val() <= other.val()),
    {
        proof {
            lemma_pow2_halves();
        }
        if self.hi < other.hi {
            true
        } else if self.hi == other.hi {
            self.lo <= other.lo
        } else {
            false
        }
    }

    /// Whether `self < other`.
    pub fn lt(&self, other: &U256) -> (r: bool)
        ensures
            r == (self.val() < other.val()),
    {
        proof {
            lemma_pow2_halves();
        }
        if self.hi < other.hi {
            true
        } else if self.hi == other.hi {
            self.lo < other.lo
        } else {
            false
        }
    }

    /// `self + other`, clamped to the largest representable value.
    pub fn add_sat(&self, other: &U256) -> (r: U256)
        ensures
            r.val() == if self.val() + other.val() <= U256::max_val() {
                self.val() + other.val()
            } else {
                U256::max_val()
            },
    {
        proof {
            lemma_pow2_halves();
        }
        let (lo, carry): (u128, u128) = if self.lo <= u128::MAX - other.lo {
            (self.lo + other.lo, 0)
        } else {
            // lo1 + lo2 - 2^128, reached without intermediate overflow
            ((self.lo - (u128::MAX - other.lo)) - 1, 1)
        };
        if self.hi <= u128::MAX - carry && other.hi <= u128::MAX - carry - self.hi {
            let r = U256 { hi: self.hi + other.hi + carry, lo };
            proof {
                assert(r.val() == self.val() + other.val());
            }
            r
        } else {
            let r = U256 { hi: u128::MAX, lo: u128::MAX };
            proof {
                assert(self.val() + other.val() > U256::max_val());
                assert(r.val() == U256::max_val());
            }
            r
        }
    }
}

} // verus!
