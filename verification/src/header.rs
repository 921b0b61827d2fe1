//! Block headers: the 80-byte wire form, its round-tripping codec, and the
//! header hash.

use vstd::prelude::*;
use vstd::arithmetic::div_mod::*;
use crate::bytes::{le_val, le4, lemma_le4_val, lemma_le_val_bound, push_u32_le, read_u32_le,
    copy_range};
use crate::hash::{sha256d, sha256d_of};

verus! {

/// A Bitcoin block header, fields as they appear on the wire.
#[derive(Debug)]
pub struct BlockHeader {
    pub version: u32,
    pub prev_blockhash: Vec<u8>,
    pub merkle_root: Vec<u8>,
    pub time: u32,
    pub bits: u32,
    pub nonce: u32,
}

/// The mathematical image of a header.
pub ghost struct BlockHeaderV {
    pub version: u32,
    pub prev_blockhash: Seq<u8>,
    pub merkle_root: Seq<u8>,
    pub time: u32,
    pub bits: u32,
    pub nonce: u32,
}

impl View for BlockHeader {
    type V = BlockHeaderV;

    open spec fn view(&self) -> BlockHeaderV {
        BlockHeaderV {
            version: self.version,
            prev_blockhash: self.prev_blockhash@,
            merkle_root: self.merkle_root@,
            time: self.time,
            bits: self.bits,
            nonce: self.nonce,
        }
    }
}

/// Both hash fields hold exactly 32 bytes.
pub open spec fn header_wf(h: BlockHeaderV) -> bool {
    h.prev_blockhash.len() == 32 && h.merkle_root.len() == 32
}

/// The 80 bytes a header serializes to.
pub open spec fn ser_spec(h: BlockHeaderV) -> Seq<u8> {
    le4(h.version) + h.prev_blockhash + h.merkle_root + le4(h.time) + le4(h.bits) + le4(h.nonce)
}

/// The hash a header is referred to by: double SHA-256 of its wire form.
#[verifier::opaque]
pub open spec fn hash_of(h: BlockHeaderV) -> Seq<u8> {
    sha256d_of(ser_spec(h))
}

/// Reading four little-endian bytes back gives the bytes read.
proof fn lemma_le4_inverse(s: Seq<u8>)
    requires
        s.len() == 4,
    ensures
        le_val(s) < 0x1_0000_0000,
        le4(le_val(s) as u32) =~= s,
{
    reveal_with_fuel(le_val, 6);
    lemma_le_val_bound(s);
    vstd::arithmetic::power2::lemma2_to64();
    assert(s.skip(1).skip(1).skip(1).skip(1) =~= Seq::<u8>::empty());
    assert(s.skip(1).skip(1).skip(1) =~= seq![s[3]]);
    assert(s.skip(1).skip(1) =~= seq![s[2], s[3]]);
    assert(s.skip(1) =~= seq![s[1], s[2], s[3]]);
    let v = le_val(s) as int;
    let q1 = s[1] + 256 * (s[2] + 256 * (s[3] as int));
    let q2 = s[2] + 256 * (s[3] as int);
    assert(v == 256 * q1 + s[0]) by (nonlinear_arith)
        requires
            v == s[0] + 256 * q1,
    ;
    lemma_fundamental_div_mod_converse(v, 256, q1, s[0] as int);
    assert(q1 == 256 * q2 + s[1]) by (nonlinear_arith)
        requires
            q1 == s[1] + 256 * q2,
    ;
    lemma_fundamental_div_mod_converse(q1, 256, q2, s[1] as int);
    lemma_fundamental_div_mod_converse(q2, 256, s[3] as int, s[2] as int);
    lemma_div_denominator(v, 256, 256);
    lemma_div_denominator(v, 65536, 256);
    assert(v / 65536 == q2);
    assert(v / 16777216 == s[3]);
    assert((s[3] as int) % 256 == s[3] as int);
}

impl BlockHeader {
    /// Both hash fields hold exactly 32 bytes.
    pub open spec fn wf(&self) -> bool {
        header_wf(self@)
    }

    /// A deep copy.
    pub fn duplicate(&self) -> (r: BlockHeader)
        ensures
            r@ == self@,
    {
        let prev = self.prev_blockhash.clone();
        let merkle = self.merkle_root.clone();
        proof {
            assert(prev@ =~= self.prev_blockhash@);
            assert(merkle@ =~= self.merkle_root@);
        }
        BlockHeader {
            version: self.version,
            prev_blockhash: prev,
            merkle_root: merkle,
            time: self.time,
            bits: self.bits,
            nonce: self.nonce,
        }
    }

    /// The 80-byte wire form.
    pub fn serialize(&self) -> (v: Vec<u8>)
        requires
            self.wf(),
        ensures
            v@ == ser_spec(self@),
            v@.len() == 80,
    {
        let mut v: Vec<u8> = Vec::new();
        push_u32_le(&mut v, self.version);
        let mut i: usize = 0;
        while i < 32
            invariant
                i <= 32,
                self.wf(),
                v@ =~= le4(self.version) + self.prev_blockhash@.take(i as int),
            decreases 32 - i,
        {
            v.push(self.prev_blockhash[i]);
            assert(v@ =~= le4(self.version) + self.prev_blockhash@.take(i + 1));
            i = i + 1;
        }
        assert(self.prev_blockhash@.take(32) =~= self.prev_blockhash@);
        i = 0;
        while i < 32
            invariant
                i <= 32,
                self.wf(),
                v@ =~= le4(self.version) + self.prev_blockhash@ + self.merkle_root@.take(i as int),
            decreases 32 - i,
        {
            v.push(self.merkle_root[i]);
            assert(v@ =~= le4(self.version) + self.prev_blockhash@ + self.merkle_root@.take(
                i + 1,
            ));
            i = i + 1;
        }
        assert(self.merkle_root@.take(32) =~= self.merkle_root@);
        push_u32_le(&mut v, self.time);
        push_u32_le(&mut v, self.bits);
        push_u32_le(&mut v, self.nonce);
        proof {
            assert(v@ =~= ser_spec(self@));
            lemma_le4_val(self.version);
        }
        v
    }

    /// Parse the 80-byte wire form; any other length is refused. What
    /// parses serializes back to the very bytes given.
    pub fn parse(bytes: &Vec<u8>) -> (r: Option<BlockHeader>)
        ensures
            r is Some <==> bytes@.len() == 80,
            r is Some ==> {
                let h = r->0;
                h.wf() && ser_spec(h@) == bytes@
            },
    {
        if bytes.len() != 80 {
            return None;
        }
        let version = read_u32_le(bytes, 0);
        let prev = copy_range(bytes, 4, 32);
        let merkle = copy_range(bytes, 36, 32);
        let time = read_u32_le(bytes, 68);
        let bits = read_u32_le(bytes, 72);
        let nonce = read_u32_le(bytes, 76);
        let h = BlockHeader { version, prev_blockhash: prev, merkle_root: merkle, time, bits, nonce };
        proof {
            lemma_le4_inverse(bytes@.subrange(0, 4));
            lemma_le4_inverse(bytes@.subrange(68, 72));
            lemma_le4_inverse(bytes@.subrange(72, 76));
            lemma_le4_inverse(bytes@.subrange(76, 80));
            assert(ser_spec(h@) =~= bytes@);
        }
        Some(h)
    }

    /// The header's own hash.
    pub fn header_hash(&self) -> (r: Vec<u8>)
        requires
            self.wf(),
        ensures
            r@ == hash_of(self@),
            r@.len() == 32,
    {
        proof {
            reveal(hash_of);
        }
        let v = self.serialize();
        sha256d(&v)
    }
}

} // verus!
