//! The double-SHA-256 digest Bitcoin hashes everything with, as a named,
//! trusted primitive, plus byte-string equality.

use vstd::prelude::*;

verus! {

/// What the double-SHA-256 digest of a byte string is. The digest is a
/// function of the input bytes alone; nothing here states its value.
pub uninterp spec fn sha256d_of(data: Seq<u8>) -> Seq<u8>;

/// Relies on `bitcoin::hashes::sha256d::Hash::hash`: the 32-byte double
/// SHA-256 digest of the input, a function of the input bytes alone.
#[verifier::external_body]
pub fn sha256d(data: &Vec<u8>) -> (r: Vec<u8>)
    ensures
        r@ == sha256d_of(data@),
        r@.len() == 32,
{
    let h = <bitcoin::hashes::sha256d::Hash as bitcoin::hashes::Hash>::hash(data.as_slice());
    <bitcoin::hashes::sha256d::Hash as bitcoin::hashes::Hash>::to_byte_array(h).to_vec()
}

/// Whether two byte strings hold the same bytes.
pub fn bytes_eq(a: &Vec<u8>, b: &Vec<u8>) -> (r: bool)
    ensures
        r == (a@ == b@),
{
    if a.len() != b.len() {
        return false;
    }
    let n = a.len();
    let mut i: usize = 0;
    while i < n
        invariant
            i <= n,
            n == a@.len(),
            n == b@.len(),
            forall|j: int| 0 <= j < i ==> a@[j] == b@[j],
        decreases n - i,
    {
        if a[i] != b[i] {
            return false;
        }
        i = i + 1;
    }
    proof {
        assert(a@ =~= b@);
    }
    true
}

} // verus!
