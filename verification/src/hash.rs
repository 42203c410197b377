//! Hash primitives: SHA-256 access, leaf and node labels, path bits.

use sha2::Digest;
use vstd::prelude::*;

verus! {

/// A 32-byte hash value.
pub type Hash32 = [u8; 32];

/// Depth of the sparse Merkle trie: a key's path is the first
/// `TREE_DEPTH` bits of its key hash.
pub const TREE_DEPTH: usize = 160;

/// The 32-byte digest that SHA-256 assigns to a byte sequence.
pub uninterp spec fn sha256_of(data: Seq<u8>) -> Seq<u8>;

/// Relies on sha2::Sha256: one-shot digest of the input bytes.
#[verifier::external_body]
pub(crate) fn sha256(data: &[u8]) -> (r: Hash32)
    ensures
        r@ == sha256_of(data@),
{
    let mut hasher = sha2::Sha256::new();
    hasher.update(data);
    hasher.finalize().into()
}

/// The all-zero 32-byte value: the label of an empty leaf slot.
pub open spec fn zero32() -> Seq<u8> {
    Seq::new(32, |i: int| 0u8)
}

/// The empty/default hash for an empty subtree at leaf level.
pub fn empty_hash() -> (r: Hash32)
    ensures
        r@ == zero32(),
{
    let r: Hash32 = [0u8; 32];
    proof {
        broadcast use vstd::array::group_array_axioms;

        assert(r@ =~= zero32());
    }
    r
}

/// Label of an internal node given its children's labels.
pub open spec fn spec_hash_nodes(left: Seq<u8>, right: Seq<u8>) -> Seq<u8> {
    sha256_of(left + right)
}

/// Hash two child nodes to produce the parent label.
pub fn hash_nodes(left: &Hash32, right: &Hash32) -> (r: Hash32)
    ensures
        r@ == spec_hash_nodes(left@, right@),
{
    let mut buf: Vec<u8> = Vec::new();
    buf.extend_from_slice(left.as_slice());
    buf.extend_from_slice(right.as_slice());
    proof {
        assert(buf@ =~= left@ + right@);
    }
    sha256(buf.as_slice())
}

/// Label of an occupied leaf: a 0x00 domain prefix, the key hash, the value.
pub open spec fn spec_hash_leaf(key: Seq<u8>, value: Seq<u8>) -> Seq<u8> {
    sha256_of(seq![0u8] + key + value)
}

/// Hash a leaf value under its key hash.
pub fn hash_leaf(key: &Hash32, value: &[u8]) -> (r: Hash32)
    ensures
        r@ == spec_hash_leaf(key@, value@),
{
    let mut buf: Vec<u8> = Vec::new();
    buf.push(0u8);
    buf.extend_from_slice(key.as_slice());
    buf.extend_from_slice(value);
    proof {
        assert(buf@ =~= seq![0u8] + key@ + value@);
    }
    sha256(buf.as_slice())
}

/// The key hash that locates an application key in the trie.
pub open spec fn spec_hash_key(key: Seq<u8>) -> Seq<u8> {
    sha256_of(key)
}

/// Hash an application key to get its trie location.
pub fn hash_key(key: &[u8]) -> (r: Hash32)
    ensures
        r@ == spec_hash_key(key@),
{
    sha256(key)
}

/// SHA-256 of arbitrary bytes, as raw 32 bytes.
pub fn hash_bytes(data: &[u8]) -> (r: Hash32)
    ensures
        r@ == sha256_of(data@),
{
    sha256(data)
}

/// Bit `i` (0 = most significant) of a byte.
pub open spec fn spec_byte_bit(b: u8, i: nat) -> bool
    recommends
        i < 8,
{
    (b >> (7 - i as u64) as u8) & 1 == 1
}

/// Bit `position` of a 32-byte hash, counting from the most significant
/// bit of the first byte.
pub open spec fn spec_bit(h: Seq<u8>, position: nat) -> bool
    recommends
        position < 8 * h.len(),
{
    spec_byte_bit(h[position as int / 8], position % 8)
}

/// Get the bit at a specific position in a hash (for trie traversal).
/// Position 0 is the most significant bit.
pub fn get_bit(hash: &Hash32, position: usize) -> (r: bool)
    requires
        position < 256,
    ensures
        r == spec_bit(hash@, position as nat),
{
    let byte_idx = position / 8;
    let bit_idx = 7 - (position % 8);
    (hash[byte_idx] >> bit_idx as u8) & 1 == 1
}

/// Byte-wise equality of two 32-byte hashes.
pub fn hash_eq(a: &Hash32, b: &Hash32) -> (r: bool)
    ensures
        r == (a@ == b@),
{
    let mut i: usize = 0;
    while i < 32
        invariant
            i <= 32,
            forall|j: int| 0 <= j < i ==> a@[j] == b@[j],
        decreases 32 - i,
    {
        if a[i] != b[i] {
            return false;
        }
        i += 1;
    }
    proof {
        assert(a@ =~= b@);
    }
    true
}

} // verus!
