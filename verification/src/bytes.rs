//! Little-endian byte strings and the numbers they encode.

use vstd::prelude::*;
use vstd::arithmetic::power2::*;
use vstd::arithmetic::div_mod::*;
use vstd::arithmetic::mul::*;

verus! {

/// The number a byte string encodes when read little-endian.
pub open spec fn le_val(s: Seq<u8>) -> nat
    decreases s.len(),
{
    if s.len() == 0 {
        0
    } else {
        (s[0] + 256 * le_val(s.skip(1))) as nat
    }
}

/// A byte string of length `n` encodes a number below `2^(8n)`.
pub proof fn lemma_le_val_bound(s: Seq<u8>)
    ensures
        le_val(s) < pow2(8 * s.len()),
    decreases s.len(),
{
    if s.len() == 0 {
        lemma_pow2_pos(0);
        assert(pow2(0) == 1) by {
            lemma2_to64();
        }
    } else {
        lemma_le_val_bound(s.skip(1));
        lemma_pow2_adds(8, 8 * (s.len() - 1) as nat);
        assert(pow2(8) == 256) by {
            lemma2_to64();
        }
        let p = pow2(8 * (s.len() - 1) as nat);
        assert(le_val(s.skip(1)) <= p - 1);
        assert(256 * le_val(s.skip(1)) <= 256 * (p - 1)) by (nonlinear_arith)
            requires
                le_val(s.skip(1)) <= p - 1,
                p >= 1,
        ;
        assert(8 * s.len() == 8 + 8 * (s.len() - 1) as nat);
    }
}

/// Splitting a byte string splits its value: the low part plus the high
/// part shifted by the length of the low part.
pub proof fn lemma_le_val_split(s: Seq<u8>, k: int)
    requires
        0 <= k <= s.len(),
    ensures
        le_val(s) == le_val(s.take(k)) + pow2((8 * k) as nat) * le_val(s.skip(k)),
    decreases k,
{
    if k == 0 {
        assert(s.take(0) =~= Seq::<u8>::empty());
        assert(s.skip(0) =~= s);
        assert(pow2(0) == 1) by {
            lemma2_to64();
        }
        assert(le_val(s.take(0)) == 0);
        let pk = pow2((8 * k) as nat);
        assert(pk == 1);
        assert(pk * le_val(s.skip(k)) == le_val(s.skip(k))) by (nonlinear_arith)
            requires
                pk == 1,
        ;
        assert(le_val(s) == le_val(s.take(k)) + pow2((8 * k) as nat) * le_val(s.skip(k)));
    } else {
        lemma_le_val_split(s.skip(1), k - 1);
        assert(s.skip(1).skip(k - 1) =~= s.skip(k));
        assert(s.take(k).skip(1) =~= s.skip(1).take(k - 1));
        assert(s.take(k).len() == k);
        assert(s.take(k)[0] == s[0]);
        let a = le_val(s.skip(1).take(k - 1));
        let b = le_val(s.skip(k));
        let p = pow2((8 * (k - 1)) as nat);
        assert(le_val(s.skip(1)) == a + p * b);
        assert(le_val(s) == s[0] + 256 * (a + p * b));
        assert(le_val(s.take(k)) == s[0] + 256 * a);
        lemma_pow2_adds(8, (8 * (k - 1)) as nat);
        assert(pow2(8) == 256) by {
            lemma2_to64();
        }
        assert(256 * (a + p * b) == 256 * a + 256 * (p * b)) by (nonlinear_arith);
        assert(256 * (p * b) == (256 * p) * b) by (nonlinear_arith);
        assert((8 * k) as nat == 8 + (8 * (k - 1)) as nat);
        assert(pow2((8 * k) as nat) == 256 * p);
        assert(le_val(s) == (s[0] + 256 * a) + (256 * p) * b);
        assert(pow2((8 * k) as nat) * b == (256 * p) * b) by (nonlinear_arith)
            requires
                pow2((8 * k) as nat) == 256 * p,
        ;
        assert(le_val(s) == le_val(s.take(k)) + pow2((8 * k) as nat) * le_val(s.skip(k)));
    }
}

/// The four bytes of a `u32`, little-endian.
pub open spec fn le4(x: u32) -> Seq<u8> {
    seq![
        (x % 256) as u8,
        ((x / 256) % 256) as u8,
        ((x / 65536) % 256) as u8,
        ((x / 16777216) % 256) as u8,
    ]
}

/// `le4` encodes exactly its argument.
pub proof fn lemma_le4_val(x: u32)
    ensures
        le_val(le4(x)) == x,
        le4(x).len() == 4,
{
    reveal_with_fuel(le_val, 6);
    let s = le4(x);
    assert(s.skip(1).skip(1).skip(1).skip(1) =~= Seq::<u8>::empty());
    assert(s.skip(1).skip(1).skip(1) =~= seq![((x / 16777216) % 256) as u8]);
    assert(s.skip(1).skip(1) =~= seq![((x / 65536) % 256) as u8, ((x / 16777216) % 256) as u8]);
    assert(s.skip(1) =~= seq![
        ((x / 256) % 256) as u8,
        ((x / 65536) % 256) as u8,
        ((x / 16777216) % 256) as u8,
    ]);
    assert(x / 16777216 < 256);
    assert((x / 16777216) % 256 == x / 16777216);
    lemma_fundamental_div_mod(x as int, 256);
    lemma_fundamental_div_mod((x / 256) as int, 256);
    lemma_fundamental_div_mod((x / 65536) as int, 256);
    lemma_div_denominator(x as int, 256, 256);
    lemma_div_denominator(x as int, 65536, 256);
    assert(x / 256 / 256 == x / 65536);
    assert(x / 65536 / 256 == x / 16777216);
    assert(le_val(s) == (x % 256) + 256 * (((x / 256) % 256) + 256 * (((x / 65536) % 256) + 256
        * ((x / 16777216) as nat))));
}

/// Append the four little-endian bytes of `x` to `v`.
pub fn push_u32_le(v: &mut Vec<u8>, x: u32)
    ensures
        final(v)@ == old(v)@ + le4(x),
{
    v.push((x % 256) as u8);
    v.push(((x / 256) % 256) as u8);
    v.push(((x / 65536) % 256) as u8);
    v.push(((x / 16777216) % 256) as u8);
    assert(v@ =~= old(v)@ + le4(x));
}

/// Read the `u32` encoded little-endian at `off`.
pub fn read_u32_le(v: &Vec<u8>, off: usize) -> (r: u32)
    requires
        off + 4 <= v@.len(),
    ensures
        r == le_val(v@.subrange(off as int, off + 4)),
{
    let l: usize = v.len();
    assert(off + 4 <= l);
    let b0 = v[off] as u32;
    let b1 = v[off + 1] as u32;
    let b2 = v[off + 2] as u32;
    let b3 = v[off + 3] as u32;
    let r = b0 + b1 * 256 + b2 * 65536 + b3 * 16777216;
    proof {
        reveal_with_fuel(le_val, 6);
        let s = v@.subrange(off as int, off + 4);
        assert(s.skip(1).skip(1).skip(1).skip(1) =~= Seq::<u8>::empty());
        assert(s.skip(1).skip(1).skip(1) =~= seq![v@[off + 3]]);
        assert(s.skip(1).skip(1) =~= seq![v@[off + 2], v@[off + 3]]);
        assert(s.skip(1) =~= seq![v@[off + 1], v@[off + 2], v@[off + 3]]);
        assert(le_val(s) == b0 + 256 * (b1 + 256 * (b2 + 256 * (b3 as nat))));
    }
    r
}

/// Copy `v[start .. start + n]` into a fresh vector.
pub fn copy_range(v: &Vec<u8>, start: usize, n: usize) -> (r: Vec<u8>)
    requires
        start + n <= v@.len(),
    ensures
        r@ == v@.subrange(start as int, start + n),
{
    let l: usize = v.len();
    assert(start + n <= l);
    let mut out: Vec<u8> = Vec::new();
    let mut i: usize = 0;
    while i < n
        invariant
            i <= n,
            start + n <= v.len(),
            out@ =~= v@.subrange(start as int, start + i),
        decreases n - i,
    {
        out.push(v[start + i]);
        assert(out@ =~= v@.subrange(start as int, start + i + 1));
        i = i + 1;
    }
    out
}

} // verus!
