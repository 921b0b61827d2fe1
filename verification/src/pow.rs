//! Proof-of-work: the compact difficulty encoding, the target it denotes,
//! the work a header at that target represents, and the check that a
//! header's hash meets its declared target.

use vstd::prelude::*;
use vstd::arithmetic::power2::*;
use vstd::arithmetic::div_mod::*;
use crate::bytes::{le_val, lemma_le_val_bound, lemma_le_val_split};
use crate::u256::{U256, lemma_pow2_halves};
use crate::header::{BlockHeader, BlockHeaderV, hash_of};
use crate::{BitcoinNetworkType, pow_limit_spec, retargets_spec};

verus! {

/// The exponent byte of a compact difficulty encoding.
pub open spec fn bits_exponent(bits: u32) -> nat {
    (bits / 0x100_0000) as nat
}

/// The mantissa after normalization: exponents below 3 shift it right.
pub open spec fn bits_mantissa(bits: u32) -> nat {
    let m = (bits % 0x100_0000) as nat;
    let e = bits_exponent(bits);
    if e >= 3 {
        m
    } else {
        m / pow2((8 * (3 - e)) as nat)
    }
}

/// How many whole bytes the mantissa is shifted left by.
pub open spec fn bits_shift(bits: u32) -> nat {
    let e = bits_exponent(bits);
    if e >= 3 {
        (e - 3) as nat
    } else {
        0
    }
}

/// A compact encoding is valid when its mantissa is positive, carries no
/// sign bit, and the target it denotes fits in 256 bits. Exponents above
/// 32 are refused outright, a hair stricter than the compact rules, which
/// tolerate 33 and 34 for mantissas short enough; no network's limit
/// comes near either form.
#[verifier::opaque]
pub open spec fn bits_valid(bits: u32) -> bool {
    let m = (bits % 0x100_0000) as nat;
    m != 0 && m < 0x80_0000 && bits_exponent(bits) <= 32 && bits_mantissa(bits) >= 1
}

/// The numeric target a compact encoding denotes.
pub open spec fn target_of_bits(bits: u32) -> nat {
    bits_mantissa(bits) * pow2(8 * bits_shift(bits))
}

/// The work a header mined at `bits` stands for: `floor(2^255 / target)`,
/// a strictly larger number the smaller the target. (The customary
/// measure is `floor(2^256 / (target + 1))`, which needs one bit more
/// than 256-bit arithmetic holds; both order targets the same way.)
pub open spec fn work_of_bits(bits: u32) -> nat {
    pow2(255) / target_of_bits(bits)
}

/// A header meets proof-of-work: its declared bits are valid and its hash,
/// read as a little-endian 256-bit number, does not exceed the target.
#[verifier::opaque]
pub open spec fn pow_ok(h: BlockHeaderV) -> bool {
    bits_valid(h.bits) && le_val(hash_of(h)) <= target_of_bits(h.bits)
}

/// Split a compact encoding into normalized mantissa and byte shift;
/// `None` exactly on invalid encodings.
pub fn decode_bits(bits: u32) -> (r: Option<(u32, u32)>)
    ensures
        r is Some <==> bits_valid(bits),
        r is Some ==> {
            let (m, s) = r->0;
            1 <= m < 0x80_0000 && s <= 29 && m == bits_mantissa(bits) && s == bits_shift(bits)
        },
{
    let e = bits / 0x100_0000;
    let m = bits % 0x100_0000;
    proof {
        reveal(bits_valid);
        lemma2_to64();
    }
    if m == 0 || m >= 0x80_0000 || e > 32 {
        return None;
    }
    if e >= 3 {
        Some((m, e - 3))
    } else {
        let div: u32 = if e == 2 {
            256
        } else if e == 1 {
            65536
        } else {
            16777216
        };
        assert(div == pow2((8 * (3 - bits_exponent(bits))) as nat));
        let shifted = m / div;
        if shifted == 0 {
            None
        } else {
            Some((shifted, 0))
        }
    }
}

/// `floor(x / (m * 2^(8s)))` equals `floor(x / 2^(8s)) / m`.
proof fn lemma_work_shift(m: nat, s: nat)
    requires
        m >= 1,
        8 * s <= 255,
    ensures
        pow2(255) / (m * pow2(8 * s)) == pow2((255 - 8 * s) as nat) / m,
{
    lemma_pow2_pos(8 * s);
    lemma_pow2_pos(255);
    lemma_div_denominator(pow2(255) as int, pow2(8 * s) as int, m as int);
    lemma_pow2_subtracts(8 * s, 255);
    assert(m * pow2(8 * s) == pow2(8 * s) * m) by (nonlinear_arith);
}

/// The target as a 256-bit number: the mantissa shifted left `s` bytes.
pub fn target_u256(m: u32, s: u32) -> (r: U256)
    requires
        1 <= m < 0x80_0000,
        s <= 29,
    ensures
        r.val() == m * pow2(8 * s as nat),
{
    let mut t = U256::from_u64(m as u64);
    let n: u32 = 8 * s;
    let mut j: u32 = 0;
    proof {
        lemma2_to64();
        assert(pow2(0) == 1);
        assert(t.val() == m * pow2(0)) by (nonlinear_arith)
            requires
                t.val() == m,
                pow2(0) == 1,
        ;
    }
    while j < n
        invariant
            j <= n,
            n == 8 * s,
            s <= 29,
            1 <= m < 0x80_0000,
            t.val() == m * pow2(j as nat),
        decreases n - j,
    {
        proof {
            lemma2_to64();
            lemma_pow2_adds(23, j as nat);
            lemma_pow2_strictly_increases((23 + j) as nat, 255);
            lemma_pow2_pos(j as nat);
            assert(m * pow2(j as nat) < pow2(23) * pow2(j as nat)) by (nonlinear_arith)
                requires
                    m < pow2(23),
                    pow2(j as nat) >= 1,
            ;
            assert(t.val() < pow2(255));
        }
        t = t.double_plus(false);
        proof {
            lemma_pow2_adds(j as nat, 1);
            lemma2_to64();
            assert(2 * (m * pow2(j as nat)) == m * (pow2(j as nat) * 2)) by (nonlinear_arith);
            assert(pow2(j as nat) * pow2(1) == pow2(j as nat) * 2);
        }
        j = j + 1;
    }
    t
}

/// `floor(2^(255 - 8s) / m)` by shift-and-subtract long division.
pub fn work_u256(m: u32, s: u32) -> (r: U256)
    requires
        1 <= m < 0x80_0000,
        s <= 29,
    ensures
        r.val() == pow2((255 - 8 * s as int) as nat) / (m as nat),
{
    let k: u32 = 255 - 8 * s;
    let mut q = if m == 1 {
        U256::from_u64(1)
    } else {
        U256::zero()
    };
    let mut rem: u32 = if m == 1 {
        0
    } else {
        1
    };
    let mut i: u32 = 0;
    proof {
        lemma2_to64();
        assert(pow2(0) == q.val() * m + rem) by (nonlinear_arith)
            requires
                pow2(0) == 1,
                (m == 1 ==> q.val() == 1 && rem == 0) && (m != 1 ==> q.val() == 0 && rem == 1),
                m >= 1,
        ;
    }
    while i < k
        invariant
            i <= k,
            k == 255 - 8 * s,
            s <= 29,
            1 <= m < 0x80_0000,
            rem < m,
            pow2(i as nat) == q.val() * m + rem,
        decreases k - i,
    {
        proof {
            lemma2_to64();
            assert(q.val() * 1 <= q.val() * m) by (nonlinear_arith)
                requires
                    1 <= m,
                    q.val() >= 0,
            ;
            assert(q.val() <= pow2(i as nat));
            lemma_pow2_strictly_increases(i as nat, 255);
            assert(q.val() < pow2(255));
        }
        let r2 = 2 * rem;
        let ghost qv = q.val();
        let carry = r2 >= m;
        if carry {
            q = q.double_plus(true);
            rem = r2 - m;
        } else {
            q = q.double_plus(false);
            rem = r2;
        }
        proof {
            lemma_pow2_adds(i as nat, 1);
            lemma2_to64();
            assert(pow2((i + 1) as nat) == pow2(i as nat) * 2);
            assert((2 * qv) * m == 2 * (qv * m)) by (nonlinear_arith);
            assert((2 * qv + 1) * m == 2 * (qv * m) + m) by (nonlinear_arith);
        }
        i = i + 1;
    }
    proof {
        lemma_fundamental_div_mod_converse(
            pow2(k as nat) as int,
            m as int,
            q.val() as int,
            rem as int,
        );
    }
    q
}

/// The work a valid compact encoding stands for, as a 256-bit number.
pub fn work_of_bits_u256(m: u32, s: u32, Ghost(bits): Ghost<u32>) -> (r: U256)
    requires
        bits_valid(bits),
        m == bits_mantissa(bits),
        s == bits_shift(bits),
        1 <= m < 0x80_0000,
        s <= 29,
    ensures
        r.val() == work_of_bits(bits),
{
    let r = work_u256(m, s);
    proof {
        lemma_work_shift(m as nat, s as nat);
    }
    r
}

/// Read sixteen little-endian bytes as a `u128`.
fn read_u128_le(v: &Vec<u8>, off: usize) -> (r: u128)
    requires
        off + 16 <= v@.len(),
    ensures
        r == le_val(v@.subrange(off as int, off + 16)),
{
    let l: usize = v.len();
    assert(off + 16 <= l);
    let mut acc: u128 = 0;
    let mut idx: usize = 16;
    proof {
        assert(v@.subrange(off + 16, off + 16) =~= Seq::<u8>::empty());
    }
    while idx > 0
        invariant
            idx <= 16,
            off + 16 <= v@.len(),
            v@.len() == l,
            acc == le_val(v@.subrange(off + idx, off + 16)),
        decreases idx,
    {
        proof {
            lemma_le_val_bound(v@.subrange(off + idx, off + 16));
            lemma_pow2_le_max_iff((8 * (16 - idx)) as nat, 120);
            lemma2_to64();
            lemma2_to64_rest();
            lemma_pow2_adds(64, 56);
            lemma_pow2_adds(64, 64);
            assert(acc < pow2(120));
        }
        idx = idx - 1;
        let b = v[off + idx];
        acc = acc * 256 + (b as u128);
        proof {
            let sub = v@.subrange(off + idx, off + 16);
            assert(sub[0] == b);
            assert(sub.skip(1) =~= v@.subrange(off + idx + 1, off + 16));
        }
    }
    proof {
        assert(v@.subrange(off as int, off + 16) =~= v@.subrange(off + 0, off + 16));
    }
    acc
}

/// `pow2` is monotone enough for the accumulator bound above.
proof fn lemma_pow2_le_max_iff(a: nat, b: nat)
    requires
        a <= b,
    ensures
        pow2(a) <= pow2(b),
{
    if a < b {
        lemma_pow2_strictly_increases(a, b);
    }
}

/// A 32-byte string as the 256-bit number it encodes little-endian.
pub fn u256_from_le32(h: &Vec<u8>) -> (r: U256)
    requires
        h@.len() == 32,
    ensures
        r.val() == le_val(h@),
{
    let lo = read_u128_le(h, 0);
    let hi = read_u128_le(h, 16);
    let r = U256 { hi, lo };
    proof {
        lemma_pow2_halves();
        lemma_le_val_split(h@, 16);
        assert(h@.take(16) =~= h@.subrange(0, 16));
        assert(h@.skip(16) =~= h@.subrange(16, 32));
        assert(le_val(h@) == le_val(h@.subrange(0, 16)) + pow2(128) * le_val(
            h@.subrange(16, 32),
        ));
        assert(r.val() == hi * pow2(128) + lo);
    }
    r
}


/// How many blocks lie between difficulty adjustments.
pub const RETARGET_INTERVAL: u64 = 2016;

/// Four times a target, clamped to what 256 bits hold.
pub open spec fn quad_sat(t: nat) -> nat {
    if 4 * t <= U256::max_val() {
        4 * t
    } else {
        U256::max_val()
    }
}

/// What the difficulty-retarget schedule allows a header at `height` to
/// declare, given the bits of the header one height below: the target never
/// exceeds the network's proof-of-work limit; off an adjustment boundary
/// the difficulty does not move at all; on a boundary one adjustment moves
/// the target by at most a factor of four either way — the consensus clamp
/// on a retarget. (Where inside the clamp an adjustment lands depends on
/// the window's timestamps; the clamp bounds every lawful outcome, so no
/// consensus-valid chain is refused.) A network that never retargets is
/// held only to its limit.
#[verifier::opaque]
pub open spec fn retarget_ok(
    net: BitcoinNetworkType,
    prev_bits: u32,
    bits: u32,
    height: u64,
) -> bool {
    &&& target_of_bits(bits) <= target_of_bits(pow_limit_spec(net))
    &&& (retargets_spec(net) ==> if height % RETARGET_INTERVAL != 0 {
        bits == prev_bits
    } else {
        target_of_bits(bits) <= quad_sat(target_of_bits(prev_bits)) && target_of_bits(prev_bits)
            <= quad_sat(target_of_bits(bits))
    })
}

/// Four times a target, clamped, as a 256-bit number.
fn quad_u256(t: &U256) -> (r: U256)
    ensures
        r.val() == quad_sat(t.val()),
{
    let d = t.add_sat(t);
    let r = d.add_sat(&d);
    proof {
        lemma_pow2_halves();
    }
    r
}

/// Whether `bits` may follow `prev_bits` at `height` under the network's
/// difficulty-retarget schedule.
pub fn check_retarget(net: BitcoinNetworkType, prev_bits: u32, bits: u32, height: u64) -> (r: bool)
    requires
        bits_valid(prev_bits),
        bits_valid(bits),
    ensures
        r == retarget_ok(net, prev_bits, bits, height),
{
    let limit_bits = net.pow_limit_bits();
    proof {
        reveal(retarget_ok);
        reveal(bits_valid);
        lemma2_to64();
        assert(bits_valid(pow_limit_spec(net)));
    }
    let (lm, ls) = match decode_bits(limit_bits) {
        Some(p) => p,
        None => {
            proof {
                assert(false);
            }
            (1, 0)
        },
    };
    let (bm, bs) = match decode_bits(bits) {
        Some(p) => p,
        None => {
            proof {
                assert(false);
            }
            (1, 0)
        },
    };
    let t_limit = target_u256(lm, ls);
    let t_new = target_u256(bm, bs);
    if !t_new.le(&t_limit) {
        return false;
    }
    if !net.retargets() {
        return true;
    }
    if height % RETARGET_INTERVAL != 0 {
        return bits == prev_bits;
    }
    let (pm, ps) = match decode_bits(prev_bits) {
        Some(p) => p,
        None => {
            proof {
                assert(false);
            }
            (1, 0)
        },
    };
    let t_prev = target_u256(pm, ps);
    let q_prev = quad_u256(&t_prev);
    let q_new = quad_u256(&t_new);
    t_new.le(&q_prev) && t_prev.le(&q_new)
}

impl BlockHeader {
    /// Whether this header meets its own declared proof-of-work target.
    pub fn check_pow(&self) -> (r: bool)
        requires
            self.wf(),
        ensures
            r == pow_ok(self@),
    {
        proof {
            reveal(pow_ok);
            reveal(bits_valid);
        }
        let decoded = decode_bits(self.bits);
        match decoded {
            None => false,
            Some((m, s)) => {
                let hash = self.header_hash();
                let hv = u256_from_le32(&hash);
                let t = target_u256(m, s);
                hv.le(&t)
            },
        }
    }
}

} // verus!
