use vstd::prelude::*;

verus! {

use vstd::utf8::encode_utf8;
use vstd::array::ArrayAdditionalExecFns;
use crate::fixed_sizes::KEY_SIZE;

/// Digest named after the hash that produces it; a function of the input
/// bytes alone, so the same bytes always name the same digest.
pub uninterp spec fn sha256_of(bytes: Seq<u8>) -> Seq<u8>;

/// Relies on `ring::digest::digest` with `SHA256`: the returned digest is
/// 32 bytes long and depends only on the input bytes.
#[verifier::external_body]
pub(crate) fn sha256_digest(data: &[u8]) -> (r: [u8; 32])
    ensures
        r@ == sha256_of(data@),
        r@.len() == 32,
{
    let digest = ring::digest::digest(&ring::digest::SHA256, data);
    let mut out = [0u8; 32];
    out.copy_from_slice(digest.as_ref());
    out
}

/// A fixed-width opaque identifier for a node or a lookup key.
/// Equality is byte-wise; only distance relative to a reference
/// identifier gives an ordering.
#[derive(Clone, Copy, Debug)]
pub struct Key(pub [u8; 32]);

impl View for Key {
    type V = Seq<u8>;

    open spec fn view(&self) -> Seq<u8> {
        self.0@
    }
}

/// Byte-wise XOR: the distance metric between two identifiers.
pub open spec fn xor_bytes(a: Seq<u8>, b: Seq<u8>) -> Seq<u8> {
    Seq::new(a.len(), |i: int| a[i] ^ b[i])
}

/// A distance is zero when every byte of it is zero.
pub open spec fn is_zero_bytes(d: Seq<u8>) -> bool {
    forall|i: int| 0 <= i < d.len() ==> d[i] == 0
}

/// Index of the highest set bit within one byte (0 for a zero byte).
pub open spec fn byte_msb(b: u8) -> int {
    if b >= 128 {
        7
    } else if b >= 64 {
        6
    } else if b >= 32 {
        5
    } else if b >= 16 {
        4
    } else if b >= 8 {
        3
    } else if b >= 4 {
        2
    } else if b >= 2 {
        1
    } else {
        0
    }
}

/// Bucket index of a 32-byte distance, scanning from the most
/// significant byte: the index of the highest set bit of the distance
/// read as a big-endian integer. A distance with no set bit (the
/// degenerate self-to-self case) yields the maximal index 255.
pub open spec fn spec_bucket_index_from(d: Seq<u8>, i: int) -> int
    decreases d.len() - i,
{
    if i < 0 || i >= d.len() {
        255
    } else if d[i] != 0 {
        (d.len() - 1 - i) * 8 + byte_msb(d[i])
    } else {
        spec_bucket_index_from(d, i + 1)
    }
}

pub open spec fn spec_bucket_index(d: Seq<u8>) -> int {
    spec_bucket_index_from(d, 0)
}

/// Distance of a node to itself is zero.
pub proof fn lemma_distance_self_zero(a: Seq<u8>)
    ensures
        is_zero_bytes(xor_bytes(a, a)),
{
    assert forall|i: int| 0 <= i < a.len() implies xor_bytes(a, a)[i] == 0 by {
        let x = a[i];
        assert(x ^ x == 0) by (bit_vector);
    }
}

/// The distance metric is symmetric.
pub proof fn lemma_distance_symmetric(a: Seq<u8>, b: Seq<u8>)
    requires
        a.len() == b.len(),
    ensures
        xor_bytes(a, b) =~= xor_bytes(b, a),
{
    assert forall|i: int| 0 <= i < a.len() implies xor_bytes(a, b)[i] == xor_bytes(b, a)[i] by {
        let x = a[i];
        let y = b[i];
        assert(x ^ y == y ^ x) by (bit_vector);
    }
}

/// The distance is zero exactly between equal identifiers.
pub proof fn lemma_distance_zero_iff_eq(a: Seq<u8>, b: Seq<u8>)
    requires
        a.len() == b.len(),
    ensures
        is_zero_bytes(xor_bytes(a, b)) <==> a =~= b,
{
    if is_zero_bytes(xor_bytes(a, b)) {
        assert forall|i: int| 0 <= i < a.len() implies a[i] == b[i] by {
            let x = a[i];
            let y = b[i];
            assert(xor_bytes(a, b)[i] == 0);
            assert(x ^ y == 0 ==> x == y) by (bit_vector);
        }
    } else {
        let i = choose|i: int| 0 <= i < a.len() && xor_bytes(a, b)[i] != 0;
        let x = a[i];
        let y = b[i];
        assert(x ^ y != 0 ==> x != y) by (bit_vector);
    }
}

/// Distances to a common reference separate distinct identifiers.
pub proof fn lemma_xor_injective(a: Seq<u8>, b: Seq<u8>, t: Seq<u8>)
    requires
        a.len() == t.len(),
        b.len() == t.len(),
        xor_bytes(a, t) =~= xor_bytes(b, t),
    ensures
        a =~= b,
{
    assert forall|i: int| 0 <= i < a.len() implies a[i] == b[i] by {
        let x = a[i];
        let y = b[i];
        let z = t[i];
        assert(xor_bytes(a, t)[i] == xor_bytes(b, t)[i]);
        assert(x ^ z == y ^ z ==> x == y) by (bit_vector);
    }
}

/// Every bucket index is in range.
pub proof fn lemma_bucket_index_from_range(d: Seq<u8>, i: int)
    requires
        d.len() == KEY_SIZE,
    ensures
        0 <= spec_bucket_index_from(d, i) <= 255,
    decreases d.len() - i,
{
    if 0 <= i < d.len() && d[i] == 0 {
        lemma_bucket_index_from_range(d, i + 1);
    }
}

pub proof fn lemma_bucket_index_range(d: Seq<u8>)
    requires
        d.len() == KEY_SIZE,
    ensures
        0 <= spec_bucket_index(d) <= 255,
{
    lemma_bucket_index_from_range(d, 0);
}

/// The bucket index is symmetric between the two identifiers.
pub proof fn lemma_bucket_index_symmetric(a: Seq<u8>, b: Seq<u8>)
    requires
        a.len() == b.len(),
    ensures
        spec_bucket_index(xor_bytes(a, b)) == spec_bucket_index(xor_bytes(b, a)),
{
    lemma_distance_symmetric(a, b);
}

/// Index of the highest set bit within one byte, executably.
fn byte_msb_exec(b: u8) -> (r: usize)
    ensures
        r == byte_msb(b),
        r <= 7,
{
    if b >= 128 {
        7
    } else if b >= 64 {
        6
    } else if b >= 32 {
        5
    } else if b >= 16 {
        4
    } else if b >= 8 {
        3
    } else if b >= 4 {
        2
    } else if b >= 2 {
        1
    } else {
        0
    }
}

/// Bucket index of a 32-byte distance; 255 for the zero distance.
pub fn bucket_index_of_distance(d: &[u8; 32]) -> (r: usize)
    ensures
        r == spec_bucket_index(d@),
        r <= 255,
{
    proof {
        lemma_bucket_index_range(d@);
    }
    let mut i: usize = 0;
    while i < 32
        invariant
            0 <= i <= 32,
            spec_bucket_index(d@) == spec_bucket_index_from(d@, i as int),
            forall|j: int| 0 <= j < i ==> d@[j] == 0,
        decreases 32 - i,
    {
        if d[i] != 0 {
            let m = byte_msb_exec(d[i]);
            return (31 - i) * 8 + m;
        }
        i = i + 1;
    }
    255
}

impl Key {
    /// Derives an identifier from arbitrary string data by hashing it.
    pub fn new(data: String) -> (r: Key)
        ensures
            r@ == sha256_of(encode_utf8(data@)),
            r@.len() == KEY_SIZE,
    {
        let bytes: &[u8] = data.as_str().as_bytes();
        Key(sha256_digest(bytes))
    }

    /// Derives an identifier by hashing raw bytes.
    pub fn from_data(bytes: &Vec<u8>) -> (r: Key)
        ensures
            r@ == sha256_of(bytes@),
            r@.len() == KEY_SIZE,
    {
        Key(sha256_digest(bytes.as_slice()))
    }

    /// Builds an identifier directly from its 32 bytes.
    pub fn from_bytes(bytes: [u8; 32]) -> (r: Key)
        ensures
            r@ == bytes@,
    {
        Key(bytes)
    }

    /// XOR distance between two identifiers, byte for byte.
    pub fn distance(&self, other: &Key) -> (r: [u8; 32])
        ensures
            r@ =~= xor_bytes(self@, other@),
    {
        let mut out: [u8; 32] = [0u8; 32];
        let mut i: usize = 0;
        while i < 32
            invariant
                0 <= i <= 32,
                out@.len() == 32,
                forall|j: int| 0 <= j < i ==> out@[j] == (self@[j] ^ other@[j]),
            decreases 32 - i,
        {
            out.set(i, self.0[i] ^ other.0[i]);
            i = i + 1;
        }
        out
    }

    /// Byte-wise equality of identifiers.
    pub fn equals(&self, other: &Key) -> (r: bool)
        ensures
            r <==> self@ == other@,
    {
        let mut i: usize = 0;
        while i < 32
            invariant
                0 <= i <= 32,
                forall|j: int| 0 <= j < i ==> self@[j] == other@[j],
            decreases 32 - i,
        {
            if self.0[i] != other.0[i] {
                return false;
            }
            i = i + 1;
        }
        assert(self@ =~= other@);
        true
    }
}

} // verus!
