//! Sparse Merkle trie over key hashes, with inclusion and non-inclusion
//! proofs and per-update witnesses.
//!
//! The trie is a logical binary tree of depth [`TREE_DEPTH`]. A key hash
//! `kh` sits at the path made of the first `TREE_DEPTH` bits of `kh`
//! (most significant bit first). An occupied leaf is labelled
//! `H(0x00 ‖ kh ‖ value)`, an empty slot by 32 zero bytes, and an internal
//! node by `H(left ‖ right)`. The mathematical model of a trie is the map
//! from occupied paths to `(key hash, value)` pairs; every contract below
//! speaks of that map.

use vstd::prelude::*;

use crate::hash::Hash32;
use crate::hash::TREE_DEPTH;
use crate::hash::empty_hash;
use crate::hash::get_bit;
use crate::hash::hash_eq;
use crate::hash::hash_key;
use crate::hash::hash_leaf;
use crate::hash::hash_nodes;
use crate::hash::spec_bit;
use crate::hash::spec_hash_key;
use crate::hash::spec_hash_leaf;
use crate::hash::spec_hash_nodes;
use crate::hash::zero32;

verus! {

/// Errors that can occur during trie operations.
#[derive(Debug, Clone, PartialEq, Eq)]
pub enum MerkleError {
    InvalidProof,
    KeyNotFound,
    Serialization(String),
}

/// View of an optional byte vector as an optional byte sequence.
pub open spec fn opt_bytes(v: Option<Vec<u8>>) -> Option<Seq<u8>> {
    match v {
        Some(b) => Some(b@),
        None => None,
    }
}

/// View of a vector of 32-byte hashes as a sequence of byte sequences.
pub open spec fn hashes_view(v: Seq<Hash32>) -> Seq<Seq<u8>> {
    v.map_values(|h: Hash32| h@)
}

/// The path of a key hash: its first `TREE_DEPTH` bits, most significant
/// bit of the first byte first.
pub open spec fn path_of(kh: Seq<u8>) -> Seq<bool> {
    Seq::new(TREE_DEPTH as nat, |i: int| spec_bit(kh, i as nat))
}

/// The label of a leaf slot holding `value` under key hash `key`:
/// the leaf hash when occupied, the all-zero sentinel when empty.
pub open spec fn leaf_label(key: Seq<u8>, value: Option<Seq<u8>>) -> Seq<u8> {
    match value {
        Some(v) => spec_hash_leaf(key, v),
        None => zero32(),
    }
}

/// One climbing step: hash the node label `below` with the sibling label
/// `sib`, on the side told by the path bit `b` at that depth.
pub open spec fn combine_bit(b: bool, below: Seq<u8>, sib: Seq<u8>) -> Seq<u8> {
    if b {
        spec_hash_nodes(sib, below)
    } else {
        spec_hash_nodes(below, sib)
    }
}

/// The label reached after climbing the first `n` siblings (leaf to root)
/// from a leaf labelled `leaf` on the path of `key`. Sibling `i` joins at
/// depth `TREE_DEPTH - 1 - i`.
pub open spec fn spec_climb(key: Seq<u8>, leaf: Seq<u8>, sibs: Seq<Seq<u8>>, n: int) -> Seq<u8>
    decreases n,
{
    if n <= 0 {
        leaf
    } else {
        combine_bit(
            spec_bit(key, (TREE_DEPTH - n) as nat),
            spec_climb(key, leaf, sibs, n - 1),
            sibs[n - 1],
        )
    }
}

/// The root that a proof or witness yields for a claimed leaf content.
pub open spec fn spec_compute_root(key: Seq<u8>, value: Option<Seq<u8>>, sibs: Seq<Seq<u8>>) -> Seq<
    u8,
> {
    spec_climb(key, leaf_label(key, value), sibs, sibs.len() as int)
}

/// Climb from a leaf label to the root using the given siblings.
fn climb(key: &Hash32, leaf: Hash32, siblings: &Vec<Hash32>) -> (r: Hash32)
    requires
        siblings@.len() <= TREE_DEPTH,
    ensures
        r@ == spec_climb(key@, leaf@, hashes_view(siblings@), siblings@.len() as int),
{
    let mut current = leaf;
    let mut i: usize = 0;
    while i < siblings.len()
        invariant
            i <= siblings@.len() <= TREE_DEPTH,
            current@ == spec_climb(key@, leaf@, hashes_view(siblings@), i as int),
        decreases siblings@.len() - i,
    {
        let depth = TREE_DEPTH - 1 - i;
        let sib = siblings[i];
        if get_bit(key, depth) {
            current = hash_nodes(&sib, &current);
        } else {
            current = hash_nodes(&current, &sib);
        }
        i += 1;
    }
    current
}

/// A Merkle proof for inclusion (`value` present) or non-inclusion
/// (`value` absent) of a key hash.
#[derive(Debug, Clone, PartialEq, Eq)]
pub struct MerkleProof {
    /// The key hash being proven.
    pub key: Hash32,
    /// The value, or `None` for a non-membership proof.
    pub value: Option<Vec<u8>>,
    /// Sibling hashes from leaf to root.
    pub siblings: Vec<Hash32>,
}

impl MerkleProof {
    /// The byte-sequence view of the siblings, leaf to root.
    pub open spec fn sibs(self) -> Seq<Seq<u8>> {
        hashes_view(self.siblings@)
    }

    /// The root this proof commits to.
    pub open spec fn spec_root(self) -> Seq<u8> {
        spec_compute_root(self.key@, opt_bytes(self.value), self.sibs())
    }

    /// Get the computed root from this proof.
    pub fn compute_root(&self) -> (r: Hash32)
        requires
            self.siblings@.len() <= TREE_DEPTH,
        ensures
            r@ == self.spec_root(),
    {
        let leaf = match &self.value {
            Some(v) => hash_leaf(&self.key, v.as_slice()),
            None => empty_hash(),
        };
        climb(&self.key, leaf, &self.siblings)
    }

    /// Verify this proof against a root.
    pub fn verify(&self, root: &Hash32) -> (r: bool)
        requires
            self.siblings@.len() <= TREE_DEPTH,
        ensures
            r == (self.spec_root() == root@),
    {
        let computed = self.compute_root();
        hash_eq(&computed, root)
    }
}

/// Witness for one update of a key hash in the trie: enough to recompute
/// the root both before and after the update.
#[derive(Debug, Clone, PartialEq, Eq)]
pub struct UpdateWitness {
    /// The key hash being updated.
    pub key: Hash32,
    /// Old value (`None` if the key was absent).
    pub old_value: Option<Vec<u8>>,
    /// New value (`None` if deleting).
    pub new_value: Option<Vec<u8>>,
    /// Sibling hashes from leaf to root.
    pub siblings: Vec<Hash32>,
}

impl UpdateWitness {
    /// The byte-sequence view of the siblings, leaf to root.
    pub open spec fn sibs(self) -> Seq<Seq<u8>> {
        hashes_view(self.siblings@)
    }

    /// The root this witness commits to before the update.
    pub open spec fn spec_old_root(self) -> Seq<u8> {
        spec_compute_root(self.key@, opt_bytes(self.old_value), self.sibs())
    }

    /// The root this witness commits to after the update.
    pub open spec fn spec_new_root(self) -> Seq<u8> {
        spec_compute_root(self.key@, opt_bytes(self.new_value), self.sibs())
    }

    /// Compute the old root from this witness.
    pub fn compute_old_root(&self) -> (r: Hash32)
        requires
            self.siblings@.len() <= TREE_DEPTH,
        ensures
            r@ == self.spec_old_root(),
    {
        let leaf = match &self.old_value {
            Some(v) => hash_leaf(&self.key, v.as_slice()),
            None => empty_hash(),
        };
        climb(&self.key, leaf, &self.siblings)
    }

    /// Compute the new root from this witness.
    pub fn compute_new_root(&self) -> (r: Hash32)
        requires
            self.siblings@.len() <= TREE_DEPTH,
        ensures
            r@ == self.spec_new_root(),
    {
        let leaf = match &self.new_value {
            Some(v) => hash_leaf(&self.key, v.as_slice()),
            None => empty_hash(),
        };
        climb(&self.key, leaf, &self.siblings)
    }
}

/// The label of the empty subtree rooted at depth `d`: the all-zero
/// sentinel at leaf level, and the hash of two empty children above it.
pub open spec fn spec_empty_subtree(d: nat) -> Seq<u8>
    decreases TREE_DEPTH - d,
    when d <= TREE_DEPTH
{
    if d == TREE_DEPTH {
        zero32()
    } else {
        spec_hash_nodes(spec_empty_subtree(d + 1), spec_empty_subtree(d + 1))
    }
}

/// The slot map of a trie: each occupied leaf path (of length
/// `TREE_DEPTH`) maps to the key hash and value stored there.
pub type SlotMap = Map<Seq<bool>, (Seq<u8>, Seq<u8>)>;

/// `q` extends `p`: `p` is a prefix of `q`.
pub open spec fn extends(q: Seq<bool>, p: Seq<bool>) -> bool {
    p.len() <= q.len() && q.take(p.len() as int) == p
}

/// The label of the subtree of `m` rooted at path prefix `p`.
pub open spec fn subtree_root(m: SlotMap, p: Seq<bool>) -> Seq<u8>
    decreases TREE_DEPTH - p.len(),
    when p.len() <= TREE_DEPTH
{
    if p.len() == TREE_DEPTH {
        if m.dom().contains(p) {
            spec_hash_leaf(m[p].0, m[p].1)
        } else {
            zero32()
        }
    } else {
        spec_hash_nodes(subtree_root(m, p.push(false)), subtree_root(m, p.push(true)))
    }
}

/// The root of the whole trie described by slot map `m`.
pub open spec fn spec_root_of(m: SlotMap) -> Seq<u8> {
    subtree_root(m, Seq::empty())
}

/// The label of the sibling met at depth `d` when walking path `p`.
pub open spec fn sib_at(m: SlotMap, p: Seq<bool>, d: nat) -> Seq<u8>
    recommends
        d < p.len(),
{
    subtree_root(m, p.take(d as int).push(!p[d as int]))
}

/// The slot at the path of `kh` neither is occupied by a foreign key hash:
/// it is free, or holds `kh` itself. Every update or proof for `kh` is
/// exact under this hypothesis; a foreign occupant could only come from a
/// key hash sharing all `TREE_DEPTH` leading bits with `kh`.
pub open spec fn slot_compatible(m: SlotMap, kh: Seq<u8>) -> bool {
    m.dom().contains(path_of(kh)) ==> m[path_of(kh)].0 == kh
}

/// The value the trie associates with key hash `kh`: the value in its
/// slot when that slot holds exactly `kh`.
pub open spec fn slot_value(m: SlotMap, kh: Seq<u8>) -> Option<Seq<u8>> {
    if m.dom().contains(path_of(kh)) && m[path_of(kh)].0 == kh {
        Some(m[path_of(kh)].1)
    } else {
        None
    }
}

/// An empty region of the trie has the precomputed empty label: if no
/// occupied path extends `p`, the subtree at `p` is the empty subtree.
pub proof fn lemma_subtree_empty(m: SlotMap, p: Seq<bool>)
    requires
        p.len() <= TREE_DEPTH,
        forall|q: Seq<bool>| m.dom().contains(q) ==> !extends(q, p),
    ensures
        subtree_root(m, p) == spec_empty_subtree(p.len()),
    decreases TREE_DEPTH - p.len(),
{
    if p.len() == TREE_DEPTH {
        if m.dom().contains(p) {
            assert(p.take(p.len() as int) =~= p);
            assert(extends(p, p));
            assert(false);
        }
    } else {
        assert forall|q: Seq<bool>, b: bool| m.dom().contains(q) implies !extends(
            q,
            p.push(b),
        ) by {
            if extends(q, p.push(b)) {
                assert(q.take(p.len() as int + 1) == p.push(b));
                assert(q.take(p.len() as int) =~= q.take(p.len() as int + 1).take(
                    p.len() as int,
                ));
                assert(p.push(b).take(p.len() as int) =~= p);
                assert(extends(q, p));
            }
        }
        lemma_subtree_empty(m, p.push(false));
        lemma_subtree_empty(m, p.push(true));
    }
}

/// Two slot maps that agree on every path extending `p` give the subtree
/// at `p` the same label.
pub proof fn lemma_subtree_agree(m1: SlotMap, m2: SlotMap, p: Seq<bool>)
    requires
        p.len() <= TREE_DEPTH,
        forall|q: Seq<bool>|
            #![trigger m1.dom().contains(q)]
            #![trigger m2.dom().contains(q)]
            (q.len() == TREE_DEPTH && extends(q, p)) ==> (m1.dom().contains(q) == m2.dom().contains(
                q,
            ) && (m1.dom().contains(q) ==> m1[q] == m2[q])),
    ensures
        subtree_root(m1, p) == subtree_root(m2, p),
    decreases TREE_DEPTH - p.len(),
{
    if p.len() == TREE_DEPTH {
        assert(p.take(p.len() as int) =~= p);
        assert(extends(p, p));
    } else {
        assert forall|q: Seq<bool>, b: bool|
            q.len() == TREE_DEPTH && extends(q, p.push(b)) implies extends(q, p) by {
            assert(q.take(p.len() as int) =~= q.take(p.len() as int + 1).take(p.len() as int));
            assert(p.push(b).take(p.len() as int) =~= p);
        }
        lemma_subtree_agree(m1, m2, p.push(false));
        lemma_subtree_agree(m1, m2, p.push(true));
    }
}

/// Unfolding one level of `subtree_root` along a full path `p`: the node
/// at depth `d` hashes the node at depth `d + 1` with the sibling at `d`.
pub proof fn lemma_subtree_step(m: SlotMap, p: Seq<bool>, d: nat)
    requires
        p.len() == TREE_DEPTH,
        d < TREE_DEPTH,
    ensures
        subtree_root(m, p.take(d as int)) == combine_bit(
            p[d as int],
            subtree_root(m, p.take(d as int + 1)),
            sib_at(m, p, d),
        ),
{
    assert(p.take(d as int).push(p[d as int]) =~= p.take(d as int + 1));
    assert(p.take(d as int).len() == d);
}

/// Climbing `n` correct siblings from the correct leaf label lands on the
/// node of `m` at depth `TREE_DEPTH - n` along the path of `kh`.
pub proof fn lemma_climb_subtree(m: SlotMap, kh: Seq<u8>, leaf: Seq<u8>, sibs: Seq<Seq<u8>>, n: int)
    requires
        sibs.len() == TREE_DEPTH,
        0 <= n <= TREE_DEPTH,
        leaf == subtree_root(m, path_of(kh)),
        forall|i: int|
            0 <= i < n ==> sibs[i] == sib_at(m, path_of(kh), (TREE_DEPTH - 1 - i) as nat),
    ensures
        spec_climb(kh, leaf, sibs, n) == subtree_root(m, path_of(kh).take(TREE_DEPTH - n)),
    decreases n,
{
    let p = path_of(kh);
    if n <= 0 {
        assert(p.take(TREE_DEPTH as int) =~= p);
    } else {
        lemma_climb_subtree(m, kh, leaf, sibs, n - 1);
        let d = (TREE_DEPTH - n) as nat;
        lemma_subtree_step(m, p, d);
        assert(p[d as int] == spec_bit(kh, d));
    }
}

/// A proof or witness built from correct siblings and the exact slot
/// content of `kh` computes the root of `m`.
pub proof fn lemma_compute_root_correct(m: SlotMap, kh: Seq<u8>, value: Option<Seq<u8>>, sibs: Seq<Seq<u8>>)
    requires
        sibs.len() == TREE_DEPTH,
        slot_compatible(m, kh),
        value == slot_value(m, kh),
        forall|i: int|
            0 <= i < TREE_DEPTH ==> sibs[i] == sib_at(m, path_of(kh), (TREE_DEPTH - 1 - i) as nat),
    ensures
        spec_compute_root(kh, value, sibs) == spec_root_of(m),
{
    let p = path_of(kh);
    assert(subtree_root(m, p) == leaf_label(kh, value));
    lemma_climb_subtree(m, kh, leaf_label(kh, value), sibs, TREE_DEPTH as int);
    assert(p.take(0) =~= Seq::<bool>::empty());
}

/// The path at which a stored leaf entry sits.
pub open spec fn lpath(e: (Hash32, Vec<u8>)) -> Seq<bool> {
    path_of(e.0@)
}

/// Some stored leaf sits exactly at path `p`.
pub open spec fn has_path(s: Seq<(Hash32, Vec<u8>)>, p: Seq<bool>) -> bool {
    exists|i: int| 0 <= i < s.len() && lpath(s[i]) == p
}

/// The index of the stored leaf at path `p` (meaningful when `has_path`).
pub open spec fn path_index(s: Seq<(Hash32, Vec<u8>)>, p: Seq<bool>) -> int {
    choose|i: int| 0 <= i < s.len() && lpath(s[i]) == p
}

/// The slot map described by a vector of stored leaves.
pub open spec fn leaves_map(s: Seq<(Hash32, Vec<u8>)>) -> SlotMap {
    Map::new(
        |p: Seq<bool>| has_path(s, p),
        |p: Seq<bool>| (s[path_index(s, p)].0@, s[path_index(s, p)].1@),
    )
}

/// No two stored leaves share a path.
pub open spec fn distinct_paths(s: Seq<(Hash32, Vec<u8>)>) -> bool {
    forall|i: int, j: int| 0 <= i < j < s.len() ==> lpath(s[i]) != lpath(s[j])
}

/// Some stored leaf sits under path prefix `p`.
pub open spec fn any_extends(s: Seq<(Hash32, Vec<u8>)>, p: Seq<bool>) -> bool {
    exists|i: int| 0 <= i < s.len() && extends(lpath(s[i]), p)
}

/// A table of empty-subtree labels, indexed by depth.
pub open spec fn empty_table_ok(e: Seq<Hash32>) -> bool {
    e.len() == TREE_DEPTH + 1 && forall|d: int|
        0 <= d <= TREE_DEPTH ==> e[d]@ == spec_empty_subtree(d as nat)
}

/// Each stored leaf of a well-formed vector is what the slot map holds at
/// its path.
proof fn lemma_map_at(s: Seq<(Hash32, Vec<u8>)>, i: int)
    requires
        distinct_paths(s),
        0 <= i < s.len(),
    ensures
        leaves_map(s).dom().contains(lpath(s[i])),
        leaves_map(s)[lpath(s[i])] == (s[i].0@, s[i].1@),
{
    let p = lpath(s[i]);
    assert(has_path(s, p));
    let j = path_index(s, p);
    assert(0 <= j < s.len() && lpath(s[j]) == p);
    if j != i {
        assert(false);
    }
}

/// Appending a leaf at a fresh path inserts exactly its slot.
proof fn lemma_push_map(s: Seq<(Hash32, Vec<u8>)>, e: (Hash32, Vec<u8>))
    requires
        distinct_paths(s),
        !has_path(s, lpath(e)),
    ensures
        distinct_paths(s.push(e)),
        leaves_map(s.push(e)) == leaves_map(s).insert(lpath(e), (e.0@, e.1@)),
{
    let t = s.push(e);
    let p = lpath(e);
    assert forall|i: int, j: int| 0 <= i < j < t.len() implies lpath(t[i]) != lpath(t[j]) by {
        if j == s.len() {
            if lpath(t[i]) == lpath(t[j]) {
                assert(t[i] == s[i]);
                assert(has_path(s, p));
            }
        } else {
            assert(t[i] == s[i] && t[j] == s[j]);
        }
    }
    let m1 = leaves_map(t);
    let m2 = leaves_map(s).insert(p, (e.0@, e.1@));
    assert forall|q: Seq<bool>| m1.dom().contains(q) implies m2.dom().contains(q) && m1[q]
        == m2[q] by {
        let i = path_index(t, q);
        assert(0 <= i < t.len() && lpath(t[i]) == q);
        if i == s.len() {
            assert(q == p);
            assert(m1[q] == (t[i].0@, t[i].1@));
        } else {
            assert(t[i] == s[i]);
            assert(has_path(s, q));
            if q == p {
                assert(false);
            }
            let j = path_index(s, q);
            assert(0 <= j < s.len() && lpath(s[j]) == q);
            if j != i {
                assert(false);
            }
            assert(m1[q] == (s[i].0@, s[i].1@));
        }
    }
    assert forall|q: Seq<bool>| m2.dom().contains(q) implies m1.dom().contains(q) by {
        if q == p {
            assert(lpath(t[s.len() as int]) == q);
            assert(has_path(t, q));
        } else {
            let j = path_index(s, q);
            assert(0 <= j < s.len() && lpath(s[j]) == q);
            assert(lpath(t[j]) == q);
            assert(has_path(t, q));
        }
    }
    assert(m1 =~= m2);
}

/// Removing a stored leaf removes exactly its slot.
proof fn lemma_remove_map(s: Seq<(Hash32, Vec<u8>)>, i: int)
    requires
        distinct_paths(s),
        0 <= i < s.len(),
    ensures
        distinct_paths(s.remove(i)),
        leaves_map(s.remove(i)) == leaves_map(s).remove(lpath(s[i])),
{
    let t = s.remove(i);
    let p = lpath(s[i]);
    assert(t.len() == s.len() - 1);
    assert forall|j: int| 0 <= j < t.len() implies t[j] == (if j < i {
        s[j]
    } else {
        s[j + 1]
    }) by {}
    assert forall|a: int, b: int| 0 <= a < b < t.len() implies lpath(t[a]) != lpath(t[b]) by {
        let a2: int = if a < i {
            a
        } else {
            a + 1
        };
        let b2: int = if b < i {
            b
        } else {
            b + 1
        };
        assert(t[a] == s[a2] && t[b] == s[b2]);
        assert(a2 < b2);
    }
    let m1 = leaves_map(t);
    let m2 = leaves_map(s).remove(p);
    assert forall|q: Seq<bool>| m1.dom().contains(q) implies m2.dom().contains(q) && m1[q]
        == m2[q] by {
        let a = path_index(t, q);
        assert(0 <= a < t.len() && lpath(t[a]) == q);
        let a2: int = if a < i {
            a
        } else {
            a + 1
        };
        assert(t[a] == s[a2]);
        assert(lpath(s[a2]) == q);
        assert(has_path(s, q));
        if q == p {
            assert(a2 != i);
            assert(false);
        }
        let j = path_index(s, q);
        assert(0 <= j < s.len() && lpath(s[j]) == q);
        if j != a2 {
            assert(false);
        }
        assert(m1[q] == (s[a2].0@, s[a2].1@));
    }
    assert forall|q: Seq<bool>| m2.dom().contains(q) implies m1.dom().contains(q) by {
        let j = path_index(s, q);
        assert(0 <= j < s.len() && lpath(s[j]) == q);
        assert(q != p);
        assert(j != i);
        let a: int = if j < i {
            j
        } else {
            j - 1
        };
        assert(t[a] == s[j]);
        assert(lpath(t[a]) == q);
        assert(has_path(t, q));
    }
    assert(m1 =~= m2);
}

/// Two slot maps that agree everywhere but at the full path `p` show the
/// same sibling labels along `p`.
proof fn lemma_sib_agree_except(m1: SlotMap, m2: SlotMap, p: Seq<bool>, d: nat)
    requires
        p.len() == TREE_DEPTH,
        d < TREE_DEPTH,
        forall|q: Seq<bool>|
            #![trigger m1.dom().contains(q)]
            #![trigger m2.dom().contains(q)]
            q != p ==> (m1.dom().contains(q) == m2.dom().contains(q) && (m1.dom().contains(q)
                ==> m1[q] == m2[q])),
    ensures
        sib_at(m1, p, d) == sib_at(m2, p, d),
{
    let pb = p.take(d as int).push(!p[d as int]);
    assert forall|q: Seq<bool>| q.len() == TREE_DEPTH && extends(q, pb) implies q != p by {
        if q == p {
            assert(q.take(d as int + 1) == pb);
            assert(p.take(d as int).push(p[d as int]) =~= p.take(d as int + 1));
            assert(q.take(d as int + 1)[d as int] == p[d as int]);
            assert(pb[d as int] == !p[d as int]);
        }
    }
    lemma_subtree_agree(m1, m2, pb);
}

/// The full path of a key hash as a bit vector.
fn path_bits(kh: &Hash32) -> (r: Vec<bool>)
    ensures
        r@ == path_of(kh@),
{
    let mut v: Vec<bool> = Vec::new();
    let mut i: usize = 0;
    while i < TREE_DEPTH
        invariant
            i <= TREE_DEPTH,
            v@.len() == i,
            forall|j: int| 0 <= j < i ==> v@[j] == spec_bit(kh@, j as nat),
        decreases TREE_DEPTH - i,
    {
        v.push(get_bit(kh, i));
        i += 1;
    }
    proof {
        assert(v@ =~= path_of(kh@));
    }
    v
}

/// Whether the path of `kh` starts with `prefix`.
fn leaf_has_prefix(kh: &Hash32, prefix: &Vec<bool>) -> (r: bool)
    requires
        prefix@.len() <= TREE_DEPTH,
    ensures
        r == extends(path_of(kh@), prefix@),
{
    let ghost p = path_of(kh@);
    let mut j: usize = 0;
    while j < prefix.len()
        invariant
            j <= prefix@.len() <= TREE_DEPTH,
            forall|k: int| 0 <= k < j ==> p[k] == prefix@[k],
            p == path_of(kh@),
        decreases prefix@.len() - j,
    {
        if get_bit(kh, j) != prefix[j] {
            proof {
                assert(p.take(prefix@.len() as int)[j as int] != prefix@[j as int]);
            }
            return false;
        }
        j += 1;
    }
    proof {
        assert(p.take(prefix@.len() as int) =~= prefix@);
    }
    true
}

/// Find the stored leaf whose path is exactly the full path `prefix`.
fn find_by_full_path(leaves: &Vec<(Hash32, Vec<u8>)>, prefix: &Vec<bool>) -> (r: Option<usize>)
    requires
        prefix@.len() == TREE_DEPTH,
    ensures
        match r {
            Some(i) => i < leaves@.len() && lpath(leaves@[i as int]) == prefix@,
            None => !has_path(leaves@, prefix@),
        },
{
    let mut i: usize = 0;
    while i < leaves.len()
        invariant
            i <= leaves@.len(),
            prefix@.len() == TREE_DEPTH,
            forall|j: int| 0 <= j < i ==> lpath(leaves@[j]) != prefix@,
        decreases leaves@.len() - i,
    {
        if leaf_has_prefix(&leaves[i].0, prefix) {
            proof {
                let p = lpath(leaves@[i as int]);
                assert(p.take(TREE_DEPTH as int) =~= p);
            }
            return Some(i);
        }
        proof {
            let p = lpath(leaves@[i as int]);
            assert(p.take(TREE_DEPTH as int) =~= p);
        }
        i += 1;
    }
    None
}

/// Find the stored leaf whose key hash is exactly `kh`.
fn find_by_hash(leaves: &Vec<(Hash32, Vec<u8>)>, kh: &Hash32) -> (r: Option<usize>)
    ensures
        match r {
            Some(i) => i < leaves@.len() && leaves@[i as int].0@ == kh@,
            None => forall|j: int| 0 <= j < leaves@.len() ==> leaves@[j].0@ != kh@,
        },
{
    let mut i: usize = 0;
    while i < leaves.len()
        invariant
            i <= leaves@.len(),
            forall|j: int| 0 <= j < i ==> leaves@[j].0@ != kh@,
        decreases leaves@.len() - i,
    {
        if hash_eq(&leaves[i].0, kh) {
            return Some(i);
        }
        i += 1;
    }
    None
}

/// Whether any stored leaf sits under `prefix`.
fn any_leaf_with_prefix(leaves: &Vec<(Hash32, Vec<u8>)>, prefix: &Vec<bool>) -> (r: bool)
    requires
        prefix@.len() <= TREE_DEPTH,
    ensures
        r == any_extends(leaves@, prefix@),
{
    let mut i: usize = 0;
    while i < leaves.len()
        invariant
            i <= leaves@.len(),
            prefix@.len() <= TREE_DEPTH,
            forall|j: int| 0 <= j < i ==> !extends(lpath(leaves@[j]), prefix@),
        decreases leaves@.len() - i,
    {
        if leaf_has_prefix(&leaves[i].0, prefix) {
            return true;
        }
        i += 1;
    }
    false
}

/// Compute the label of the subtree of the stored leaves under `prefix`.
fn subtree_hash(
    leaves: &Vec<(Hash32, Vec<u8>)>,
    empty_hashes: &Vec<Hash32>,
    prefix: Vec<bool>,
) -> (r: Hash32)
    requires
        prefix@.len() <= TREE_DEPTH,
        distinct_paths(leaves@),
        empty_table_ok(empty_hashes@),
    ensures
        r@ == subtree_root(leaves_map(leaves@), prefix@),
    decreases TREE_DEPTH - prefix@.len(),
{
    let ghost m = leaves_map(leaves@);
    if !any_leaf_with_prefix(leaves, &prefix) {
        proof {
            assert forall|q: Seq<bool>| m.dom().contains(q) implies !extends(q, prefix@) by {
                let i = path_index(leaves@, q);
                assert(0 <= i < leaves@.len() && lpath(leaves@[i]) == q);
            }
            lemma_subtree_empty(m, prefix@);
        }
        return empty_hashes[prefix.len()];
    }
    if prefix.len() == TREE_DEPTH {
        match find_by_full_path(leaves, &prefix) {
            Some(i) => {
                proof {
                    lemma_map_at(leaves@, i as int);
                }
                return hash_leaf(&leaves[i].0, leaves[i].1.as_slice());
            },
            None => {
                proof {
                    let i = choose|i: int|
                        0 <= i < leaves@.len() && extends(lpath(leaves@[i]), prefix@);
                    let p = lpath(leaves@[i]);
                    assert(p.take(TREE_DEPTH as int) =~= p);
                    assert(false);
                }
                return empty_hashes[0];
            },
        }
    }
    let mut p0 = prefix.clone();
    p0.push(false);
    let left = subtree_hash(leaves, empty_hashes, p0);
    let mut p1 = prefix;
    p1.push(true);
    let right = subtree_hash(leaves, empty_hashes, p1);
    hash_nodes(&left, &right)
}

/// Compute the sibling labels along the path of `kh`, leaf to root.
fn compute_siblings(
    leaves: &Vec<(Hash32, Vec<u8>)>,
    empty_hashes: &Vec<Hash32>,
    kh: &Hash32,
) -> (r: Vec<Hash32>)
    requires
        distinct_paths(leaves@),
        empty_table_ok(empty_hashes@),
    ensures
        r@.len() == TREE_DEPTH,
        forall|i: int|
            0 <= i < TREE_DEPTH ==> r@[i]@ == sib_at(
                leaves_map(leaves@),
                path_of(kh@),
                (TREE_DEPTH - 1 - i) as nat,
            ),
{
    let ghost m = leaves_map(leaves@);
    let ghost gp = path_of(kh@);
    let path = path_bits(kh);
    let mut sibs: Vec<Hash32> = Vec::new();
    let mut i: usize = 0;
    while i < TREE_DEPTH
        invariant
            i <= TREE_DEPTH,
            sibs@.len() == i,
            path@ == gp,
            gp == path_of(kh@),
            m == leaves_map(leaves@),
            distinct_paths(leaves@),
            empty_table_ok(empty_hashes@),
            forall|k: int| 0 <= k < i ==> sibs@[k]@ == sib_at(m, gp, (TREE_DEPTH - 1 - k) as nat),
        decreases TREE_DEPTH - i,
    {
        let d = TREE_DEPTH - 1 - i;
        let mut pref: Vec<bool> = Vec::new();
        let mut j: usize = 0;
        while j < d
            invariant
                j <= d < TREE_DEPTH,
                pref@.len() == j,
                path@ == gp,
                gp == path_of(kh@),
                forall|k: int| 0 <= k < j ==> pref@[k] == gp[k],
        decreases d - j,
        {
            pref.push(path[j]);
            j += 1;
        }
        pref.push(!path[d]);
        proof {
            assert(pref@ =~= gp.take(d as int).push(!gp[d as int]));
        }
        let s = subtree_hash(leaves, empty_hashes, pref);
        sibs.push(s);
        i += 1;
    }
    sibs
}


/// Sparse Merkle trie holding one value per occupied leaf path.
///
/// Its view is the slot map from occupied paths to `(key hash, value)`
/// pairs; [`spec_root_of`] of that map is the root every contract speaks
/// of.
#[derive(Debug, Clone)]
pub struct SparseMerkleTree {
    /// Stored leaves, one per occupied path.
    leaves: Vec<(Hash32, Vec<u8>)>,
    /// Cached root, invalidated on modification.
    cached_root: Option<Hash32>,
    /// Precomputed empty-subtree labels, indexed by depth.
    empty_hashes: Vec<Hash32>,
}

impl View for SparseMerkleTree {
    type V = SlotMap;

    closed spec fn view(&self) -> SlotMap {
        leaves_map(self.leaves@)
    }
}

impl SparseMerkleTree {
    /// Well-formedness: distinct leaf paths, a correct empty-subtree
    /// table, and a cached root faithful to the slot map.
    pub closed spec fn wf(self) -> bool {
        &&& distinct_paths(self.leaves@)
        &&& empty_table_ok(self.empty_hashes@)
        &&& match self.cached_root {
            Some(r) => r@ == spec_root_of(self@),
            None => true,
        }
    }

    /// Create a new empty trie.
    pub fn new() -> (r: Self)
        ensures
            r.wf(),
            r@ == Map::<Seq<bool>, (Seq<u8>, Seq<u8>)>::empty(),
            spec_root_of(r@) == spec_empty_subtree(0),
    {
        // Empty labels from leaf level upward: up[j] is the label of an
        // empty subtree at depth TREE_DEPTH - j.
        let mut up: Vec<Hash32> = Vec::new();
        up.push(empty_hash());
        let mut j: usize = 1;
        while j <= TREE_DEPTH
            invariant
                1 <= j <= TREE_DEPTH + 1,
                up@.len() == j,
                forall|k: int| 0 <= k < j ==> up@[k]@ == spec_empty_subtree((TREE_DEPTH - k) as nat),
            decreases TREE_DEPTH + 1 - j,
        {
            let prev = up[j - 1];
            up.push(hash_nodes(&prev, &prev));
            j += 1;
        }
        let mut empty_hashes: Vec<Hash32> = Vec::new();
        let mut d: usize = 0;
        while d <= TREE_DEPTH
            invariant
                d <= TREE_DEPTH + 1,
                up@.len() == TREE_DEPTH + 1,
                forall|k: int| 0 <= k <= TREE_DEPTH ==> up@[k]@ == spec_empty_subtree((TREE_DEPTH - k) as nat),
                empty_hashes@.len() == d,
                forall|k: int| 0 <= k < d ==> empty_hashes@[k]@ == spec_empty_subtree(k as nat),
            decreases TREE_DEPTH + 1 - d,
        {
            empty_hashes.push(up[TREE_DEPTH - d]);
            d += 1;
        }
        let root = empty_hashes[0];
        let r = SparseMerkleTree { leaves: Vec::new(), cached_root: Some(root), empty_hashes };
        proof {
            assert(r@ =~= Map::<Seq<bool>, (Seq<u8>, Seq<u8>)>::empty());
            assert forall|q: Seq<bool>| r@.dom().contains(q) implies !extends(q, Seq::<bool>::empty()) by {}
            lemma_subtree_empty(r@, Seq::empty());
        }
        r
    }

    /// Get the current root hash.
    pub fn root(&self) -> (r: Hash32)
        requires
            self.wf(),
        ensures
            r@ == spec_root_of(self@),
    {
        match &self.cached_root {
            Some(r) => *r,
            None => {
                let pref: Vec<bool> = Vec::new();
                proof {
                    assert(pref@ =~= Seq::<bool>::empty());
                }
                subtree_hash(&self.leaves, &self.empty_hashes, pref)
            },
        }
    }

    /// Get a value by key hash: the value of the slot at the path of
    /// `key_hash`, when that slot holds exactly `key_hash`.
    pub fn get_by_hash(&self, key_hash: &Hash32) -> (r: Option<Vec<u8>>)
        requires
            self.wf(),
        ensures
            opt_bytes(r) == slot_value(self@, key_hash@),
    {
        match find_by_hash(&self.leaves, key_hash) {
            Some(i) => {
                proof {
                    lemma_map_at(self.leaves@, i as int);
                }
                Some(self.leaves[i].1.clone())
            },
            None => {
                proof {
                    let p = path_of(key_hash@);
                    if self@.dom().contains(p) && self@[p].0 == key_hash@ {
                        let j = path_index(self.leaves@, p);
                        assert(0 <= j < self.leaves@.len() && lpath(self.leaves@[j]) == p);
                        assert(self.leaves@[j].0@ == key_hash@);
                    }
                }
                None
            },
        }
    }

    /// Get a value by application key.
    pub fn get(&self, key: &[u8]) -> (r: Option<Vec<u8>>)
        requires
            self.wf(),
        ensures
            opt_bytes(r) == slot_value(self@, spec_hash_key(key@)),
    {
        let key_hash = hash_key(key);
        self.get_by_hash(&key_hash)
    }

    /// Get a Merkle proof by key hash. The proof carries the slot value
    /// of `key_hash` (`None` for non-membership), and computes the
    /// current root whenever the slot is not held by a foreign key hash.
    pub fn get_proof_by_hash(&self, key_hash: &Hash32) -> (r: MerkleProof)
        requires
            self.wf(),
        ensures
            r.key@ == key_hash@,
            opt_bytes(r.value) == slot_value(self@, key_hash@),
            r.siblings@.len() == TREE_DEPTH,
            slot_compatible(self@, key_hash@) ==> r.spec_root() == spec_root_of(self@),
    {
        let value = self.get_by_hash(key_hash);
        let siblings = compute_siblings(&self.leaves, &self.empty_hashes, key_hash);
        let r = MerkleProof { key: *key_hash, value, siblings };
        proof {
            if slot_compatible(self@, key_hash@) {
                lemma_compute_root_correct(self@, key_hash@, opt_bytes(r.value), r.sibs());
            }
        }
        r
    }

    /// Get a Merkle proof for an application key.
    pub fn get_proof(&self, key: &[u8]) -> (r: MerkleProof)
        requires
            self.wf(),
        ensures
            r.key@ == spec_hash_key(key@),
            opt_bytes(r.value) == slot_value(self@, spec_hash_key(key@)),
            r.siblings@.len() == TREE_DEPTH,
            slot_compatible(self@, spec_hash_key(key@)) ==> r.spec_root() == spec_root_of(self@),
    {
        let key_hash = hash_key(key);
        self.get_proof_by_hash(&key_hash)
    }

    /// Insert or update by key hash, returning a witness against the
    /// pre-mutation root.
    ///
    /// The witness's old root is the pre-mutation root and its new root
    /// the post-mutation root, whenever the touched slot was not held by
    /// a foreign key hash.
    pub fn insert_by_hash(&mut self, key_hash: Hash32, value: Vec<u8>) -> (w: UpdateWitness)
        requires
            old(self).wf(),
        ensures
            final(self).wf(),
            final(self)@ == old(self)@.insert(path_of(key_hash@), (key_hash@, value@)),
            w.key@ == key_hash@,
            opt_bytes(w.old_value) == slot_value(old(self)@, key_hash@),
            opt_bytes(w.new_value) == Some(value@),
            w.siblings@.len() == TREE_DEPTH,
            slot_compatible(old(self)@, key_hash@) ==> w.spec_old_root() == spec_root_of(
                old(self)@,
            ),
            w.spec_new_root() == spec_root_of(final(self)@),
    {
        let ghost m0 = self@;
        let ghost p = path_of(key_hash@);
        let old_value = self.get_by_hash(&key_hash);
        let siblings = compute_siblings(&self.leaves, &self.empty_hashes, &key_hash);
        let pref = path_bits(&key_hash);
        let ghost removed_slot = false;
        match find_by_full_path(&self.leaves, &pref) {
            Some(i) => {
                proof {
                    lemma_remove_map(self.leaves@, i as int);
                    removed_slot = true;
                }
                self.leaves.remove(i);
            },
            None => {},
        }
        let ghost s_mid = self.leaves@;
        proof {
            assert(leaves_map(s_mid) == if removed_slot {
                m0.remove(p)
            } else {
                m0
            });
            if has_path(s_mid, p) {
                assert(leaves_map(s_mid).dom().contains(p));
                assert(false);
            }
        }
        let leaf_value = value.clone();
        proof {
            lemma_push_map(s_mid, (key_hash, leaf_value));
        }
        self.leaves.push((key_hash, leaf_value));
        self.cached_root = None;
        let w = UpdateWitness { key: key_hash, old_value, new_value: Some(value), siblings };
        proof {
            let m1 = self@;
            assert(m1 == leaves_map(s_mid).insert(p, (key_hash@, value@)));
            assert(m1 =~= m0.insert(p, (key_hash@, value@)));
            if slot_compatible(m0, key_hash@) {
                lemma_compute_root_correct(m0, key_hash@, opt_bytes(w.old_value), w.sibs());
            }
            assert forall|i: int| 0 <= i < TREE_DEPTH implies w.sibs()[i] == sib_at(
                m1,
                p,
                (TREE_DEPTH - 1 - i) as nat,
            ) by {
                assert forall|q: Seq<bool>|
                    #![trigger m0.dom().contains(q)]
                    #![trigger m1.dom().contains(q)]
                    q != p implies (m0.dom().contains(q) == m1.dom().contains(q) && (
                m0.dom().contains(q) ==> m0[q] == m1[q])) by {}
                lemma_sib_agree_except(m0, m1, p, (TREE_DEPTH - 1 - i) as nat);
            }
            lemma_compute_root_correct(m1, key_hash@, opt_bytes(w.new_value), w.sibs());
        }
        w
    }

    /// Insert or update an application key, returning a witness against
    /// the pre-mutation root.
    pub fn insert(&mut self, key: &[u8], value: Vec<u8>) -> (w: UpdateWitness)
        requires
            old(self).wf(),
        ensures
            final(self).wf(),
            final(self)@ == old(self)@.insert(
                path_of(spec_hash_key(key@)),
                (spec_hash_key(key@), value@),
            ),
            w.key@ == spec_hash_key(key@),
            opt_bytes(w.old_value) == slot_value(old(self)@, spec_hash_key(key@)),
            opt_bytes(w.new_value) == Some(value@),
            w.siblings@.len() == TREE_DEPTH,
            slot_compatible(old(self)@, spec_hash_key(key@)) ==> w.spec_old_root() == spec_root_of(
                old(self)@,
            ),
            w.spec_new_root() == spec_root_of(final(self)@),
    {
        let key_hash = hash_key(key);
        self.insert_by_hash(key_hash, value)
    }

    /// Delete by key hash, returning a witness against the pre-mutation
    /// root. Deleting an absent key leaves the trie unchanged and yields
    /// a witness whose old and new roots both equal the current root.
    pub fn delete_by_hash(&mut self, key_hash: Hash32) -> (w: UpdateWitness)
        requires
            old(self).wf(),
        ensures
            final(self).wf(),
            final(self)@ == if slot_value(old(self)@, key_hash@) is Some {
                old(self)@.remove(path_of(key_hash@))
            } else {
                old(self)@
            },
            w.key@ == key_hash@,
            opt_bytes(w.old_value) == slot_value(old(self)@, key_hash@),
            w.new_value is None,
            w.siblings@.len() == TREE_DEPTH,
            slot_compatible(old(self)@, key_hash@) ==> w.spec_old_root() == spec_root_of(
                old(self)@,
            ),
            slot_compatible(old(self)@, key_hash@) ==> w.spec_new_root() == spec_root_of(
                final(self)@,
            ),
    {
        let ghost m0 = self@;
        let ghost p = path_of(key_hash@);
        let old_value = self.get_by_hash(&key_hash);
        let siblings = compute_siblings(&self.leaves, &self.empty_hashes, &key_hash);
        match find_by_hash(&self.leaves, &key_hash) {
            Some(i) => {
                proof {
                    lemma_map_at(self.leaves@, i as int);
                    lemma_remove_map(self.leaves@, i as int);
                }
                self.leaves.remove(i);
            },
            None => {
                proof {
                    if m0.dom().contains(p) && m0[p].0 == key_hash@ {
                        let j = path_index(self.leaves@, p);
                        assert(0 <= j < self.leaves@.len() && lpath(self.leaves@[j]) == p);
                        assert(self.leaves@[j].0@ == key_hash@);
                    }
                }
            },
        }
        self.cached_root = None;
        let w = UpdateWitness { key: key_hash, old_value, new_value: None, siblings };
        proof {
            let m1 = self@;
            if slot_compatible(m0, key_hash@) {
                lemma_compute_root_correct(m0, key_hash@, opt_bytes(w.old_value), w.sibs());
                assert(slot_compatible(m1, key_hash@));
                assert(slot_value(m1, key_hash@) is None);
                assert forall|i: int| 0 <= i < TREE_DEPTH implies w.sibs()[i] == sib_at(
                    m1,
                    p,
                    (TREE_DEPTH - 1 - i) as nat,
                ) by {
                    assert forall|q: Seq<bool>|
                        #![trigger m0.dom().contains(q)]
                        #![trigger m1.dom().contains(q)]
                        q != p implies (m0.dom().contains(q) == m1.dom().contains(q) && (
                    m0.dom().contains(q) ==> m0[q] == m1[q])) by {}
                    lemma_sib_agree_except(m0, m1, p, (TREE_DEPTH - 1 - i) as nat);
                }
                lemma_compute_root_correct(m1, key_hash@, None, w.sibs());
            }
        }
        w
    }

    /// Delete an application key, returning a witness against the
    /// pre-mutation root.
    pub fn delete(&mut self, key: &[u8]) -> (w: UpdateWitness)
        requires
            old(self).wf(),
        ensures
            final(self).wf(),
            final(self)@ == if slot_value(old(self)@, spec_hash_key(key@)) is Some {
                old(self)@.remove(path_of(spec_hash_key(key@)))
            } else {
                old(self)@
            },
            w.key@ == spec_hash_key(key@),
            opt_bytes(w.old_value) == slot_value(old(self)@, spec_hash_key(key@)),
            w.new_value is None,
            w.siblings@.len() == TREE_DEPTH,
            slot_compatible(old(self)@, spec_hash_key(key@)) ==> w.spec_old_root() == spec_root_of(
                old(self)@,
            ),
            slot_compatible(old(self)@, spec_hash_key(key@)) ==> w.spec_new_root() == spec_root_of(
                final(self)@,
            ),
    {
        let key_hash = hash_key(key);
        self.delete_by_hash(key_hash)
    }
}


/// The canonical encoding of a stored leaf: its 32-byte key hash, then
/// its length-prefixed value.
pub open spec fn enc_leaf(e: (Hash32, Vec<u8>)) -> Seq<u8> {
    e.0@ + crate::bytes::enc_bytes(e.1@)
}

/// The canonical encoding of a list of stored leaves, in order.
pub open spec fn enc_leaf_list(s: Seq<(Hash32, Vec<u8>)>) -> Seq<u8>
    decreases s.len(),
{
    if s.len() == 0 {
        Seq::empty()
    } else {
        enc_leaf(s[0]) + enc_leaf_list(s.drop_first())
    }
}

/// The canonical encoding of a trie snapshot: the leaf count, then each
/// leaf.
pub open spec fn spec_encode_tree(s: Seq<(Hash32, Vec<u8>)>) -> Seq<u8>
    recommends
        s.len() <= u64::MAX,
{
    crate::bytes::enc_u64(s.len() as u64) + enc_leaf_list(s)
}

/// Decode `n` leaves as `(key hash, value)` byte pairs.
pub open spec fn dec_leaf_list(data: Seq<u8>, pos: int, n: nat) -> Option<
    (Seq<(Seq<u8>, Seq<u8>)>, int),
>
    decreases n,
{
    if n == 0 {
        Some((Seq::empty(), pos))
    } else {
        match crate::bytes::dec_h32(data, pos) {
            None => None,
            Some((kh, p1)) => match crate::bytes::dec_bytes(data, p1) {
                None => None,
                Some((v, p2)) => match dec_leaf_list(data, p2, (n - 1) as nat) {
                    None => None,
                    Some((rest, p3)) => Some((seq![(kh, v)] + rest, p3)),
                },
            },
        }
    }
}

/// Decode a trie snapshot into its `(key hash, value)` byte pairs.
pub open spec fn spec_decode_tree(data: Seq<u8>) -> Option<Seq<(Seq<u8>, Seq<u8>)>> {
    match crate::bytes::dec_u64(data, 0) {
        None => None,
        Some((n, p)) => match dec_leaf_list(data, p, n as nat) {
            None => None,
            Some((pairs, _p2)) => Some(pairs),
        },
    }
}

/// The slot map that a decoded pair list denotes, inserting in order:
/// a later pair on the same path replaces an earlier one.
pub open spec fn slots_of_list(s: Seq<(Seq<u8>, Seq<u8>)>) -> SlotMap
    decreases s.len(),
{
    if s.len() == 0 {
        Map::empty()
    } else {
        slots_of_list(s.drop_last()).insert(path_of(s.last().0), s.last())
    }
}

/// A well-formed leaf vector denotes, pair by pair, the same slot map it
/// already describes.
proof fn lemma_slots_of_views(s: Seq<(Hash32, Vec<u8>)>)
    requires
        distinct_paths(s),
    ensures
        slots_of_list(s.map_values(|e: (Hash32, Vec<u8>)| (e.0@, e.1@))) == leaves_map(s),
    decreases s.len(),
{
    let views = s.map_values(|e: (Hash32, Vec<u8>)| (e.0@, e.1@));
    if s.len() == 0 {
        assert(leaves_map(s) =~= Map::<Seq<bool>, (Seq<u8>, Seq<u8>)>::empty());
        assert(views.len() == 0);
    } else {
        let s0 = s.drop_last();
        let e = s.last();
        assert(forall|i: int| 0 <= i < s0.len() ==> s0[i] == s[i]);
        assert(distinct_paths(s0));
        lemma_slots_of_views(s0);
        if has_path(s0, lpath(e)) {
            let j = path_index(s0, lpath(e));
            assert(0 <= j < s0.len() && lpath(s0[j]) == lpath(e));
            assert(lpath(s[j]) == lpath(s[s.len() - 1]));
            assert(false);
        }
        lemma_push_map(s0, e);
        assert(s0.push(e) =~= s);
        assert(views.drop_last() =~= s0.map_values(|e2: (Hash32, Vec<u8>)| (e2.0@, e2.1@)));
        assert(views.last() == (e.0@, e.1@));
        assert(slots_of_list(views) == slots_of_list(views.drop_last()).insert(
            path_of(views.last().0),
            views.last(),
        ));
    }
}

impl SparseMerkleTree {
    /// Serialize the trie snapshot: the stored leaves in their canonical
    /// byte form. Decoding the result denotes exactly this trie's slot
    /// map.
    pub fn serialize(&self) -> (r: Result<Vec<u8>, MerkleError>)
        requires
            self.wf(),
        ensures
            r matches Ok(e) && (spec_decode_tree(e@) matches Some(pairs) && slots_of_list(pairs)
                == self@),
    {
        let mut out: Vec<u8> = Vec::new();
        crate::bytes::write_u64(&mut out, self.leaves.len() as u64);
        let ghost header = out@;
        let mut i: usize = 0;
        proof {
            assert(out@ =~= header + enc_leaf_list(self.leaves@.take(0)));
        }
        while i < self.leaves.len()
            invariant
                i <= self.leaves@.len(),
                header == crate::bytes::enc_u64(self.leaves@.len() as u64),
                out@ == header + enc_leaf_list(self.leaves@.take(i as int)),
            decreases self.leaves@.len() - i,
        {
            let ghost before = out@;
            crate::bytes::write_h32(&mut out, &self.leaves[i].0);
            crate::bytes::write_bytes(&mut out, self.leaves[i].1.as_slice());
            proof {
                assert(out@ =~= before + enc_leaf(self.leaves@[i as int]));
                lemma_enc_leaf_list_snoc(self.leaves@, i as int);
            }
            i += 1;
        }
        proof {
            assert(self.leaves@.take(self.leaves@.len() as int) =~= self.leaves@);
            assert(self.leaves.len() == self.leaves@.len());
            lemma_tree_round_trip(self.leaves@);
            lemma_slots_of_views(self.leaves@);
        }
        Ok(out)
    }

    /// Deserialize a trie snapshot: rebuild the trie whose slot map the
    /// decoded pairs denote, in order. Fails on malformed bytes and on a
    /// stored key hash that is not 32 bytes long (which the canonical
    /// form cannot contain).
    pub fn deserialize(data: &[u8]) -> (r: Result<Self, MerkleError>)
        ensures
            r is Ok <==> spec_decode_tree(data@) is Some,
            match r {
                Ok(t) => {
                    &&& t.wf()
                    &&& spec_decode_tree(data@) matches Some(pairs) && t@ == slots_of_list(pairs)
                },
                Err(_) => true,
            },
    {
        let (n, p0) = match crate::bytes::read_u64(data, 0) {
            Some(x) => x,
            None => {
                proof {
                    assert(spec_decode_tree(data@) is None);
                }
                return Err(MerkleError::Serialization("invalid snapshot".to_owned()));
            },
        };
        let ghost full = dec_leaf_list(data@, p0 as int, n as nat);
        let mut tree = SparseMerkleTree::new();
        let mut pos = p0;
        let mut i: u64 = 0;
        proof {
            if full is Some {
                lemma_dec_leaf_list_len(data@, p0 as int, n as nat);
                assert(full.unwrap().0.skip(0) =~= full.unwrap().0);
                assert(slots_of_list(full.unwrap().0.take(0)) =~= Map::<
                    Seq<bool>,
                    (Seq<u8>, Seq<u8>),
                >::empty());
            }
        }
        while i < n
            invariant
                i <= n,
                tree.wf(),
                full == dec_leaf_list(data@, p0 as int, n as nat),
                crate::bytes::dec_u64(data@, 0) == Some((n, p0 as int)),
                full is None ==> dec_leaf_list(data@, pos as int, (n - i) as nat) is None,
                full is Some ==> {
                    &&& full.unwrap().0.len() == n
                    &&& dec_leaf_list(data@, pos as int, (n - i) as nat) == Some(
                        (full.unwrap().0.skip(i as int), full.unwrap().1),
                    )
                    &&& slots_of_list(full.unwrap().0.take(i as int)) == tree@
                },
            decreases n - i,
        {
            let ghost pos0 = pos as int;
            let (kh, p1) = match crate::bytes::read_h32(data, pos) {
                Some(x) => x,
                None => {
                    proof {
                        if full is Some {
                            assert(dec_leaf_list(data@, pos as int, (n - i) as nat) is Some);
                            assert(crate::bytes::dec_h32(data@, pos as int) is Some);
                        }
                        assert(spec_decode_tree(data@) is None);
                    }
                    return Err(MerkleError::Serialization("invalid snapshot".to_owned()));
                },
            };
            let (v, p2) = match crate::bytes::read_bytes(data, p1) {
                Some(x) => x,
                None => {
                    proof {
                        if full is Some {
                            assert(dec_leaf_list(data@, pos as int, (n - i) as nat) is Some);
                            assert(crate::bytes::dec_bytes(data@, p1 as int) is Some);
                        }
                        assert(spec_decode_tree(data@) is None);
                    }
                    return Err(MerkleError::Serialization("invalid snapshot".to_owned()));
                },
            };
            proof {
                if full is Some {
                    let pairs = full.unwrap().0;
                    assert(pairs.skip(i as int)[0] == pairs[i as int]);
                    assert(pairs.skip(i as int).drop_first() =~= pairs.skip(i as int + 1));
                    assert(pairs.take(i as int + 1) =~= pairs.take(i as int).push(
                        pairs[i as int],
                    ));
                    lemma_slots_take_snoc(pairs, i as int + 1);
                }
            }
            tree.insert_by_hash(kh, v);
            pos = p2;
            i = i + 1;
        }
        proof {
            assert(dec_leaf_list(data@, pos as int, 0nat) is Some);
            let pairs = full.unwrap().0;
            assert(pairs.take(pairs.len() as int) =~= pairs);
        }
        Ok(tree)
    }
}

/// A successful leaf-list decode yields exactly the asked-for number of
/// pairs.
proof fn lemma_dec_leaf_list_len(data: Seq<u8>, pos: int, n: nat)
    requires
        dec_leaf_list(data, pos, n) is Some,
    ensures
        dec_leaf_list(data, pos, n).unwrap().0.len() == n,
    decreases n,
{
    if n > 0 {
        let (kh, p1) = crate::bytes::dec_h32(data, pos).unwrap();
        let (v, p2) = crate::bytes::dec_bytes(data, p1).unwrap();
        lemma_dec_leaf_list_len(data, p2, (n - 1) as nat);
    }
}

/// Unfolding one step of `slots_of_list` over a take.
proof fn lemma_slots_take_snoc(pairs: Seq<(Seq<u8>, Seq<u8>)>, k: int)
    requires
        0 < k <= pairs.len(),
    ensures
        slots_of_list(pairs.take(k)) == slots_of_list(pairs.take(k - 1)).insert(
            path_of(pairs[k - 1].0),
            pairs[k - 1],
        ),
{
    let t = pairs.take(k);
    assert(t.drop_last() =~= pairs.take(k - 1));
    assert(t.last() == pairs[k - 1]);
}

/// Appending one leaf extends the canonical leaf-list encoding.
proof fn lemma_enc_leaf_list_snoc(s: Seq<(Hash32, Vec<u8>)>, i: int)
    requires
        0 <= i < s.len(),
    ensures
        enc_leaf_list(s.take(i + 1)) == enc_leaf_list(s.take(i)) + enc_leaf(s[i]),
    decreases i,
{
    if i == 0 {
        assert(s.take(1)[0] == s[0]);
        assert(s.take(1).drop_first() =~= s.take(0));
        assert(enc_leaf_list(s.take(0)) == Seq::<u8>::empty());
        assert(enc_leaf_list(s.take(1)) =~= enc_leaf(s[0]) + Seq::<u8>::empty());
        assert(enc_leaf_list(s.take(0)) + enc_leaf(s[0]) =~= enc_leaf(s[0])
            + Seq::<u8>::empty());
    } else {
        lemma_enc_leaf_list_snoc(s.drop_first(), i - 1);
        assert(s.take(i + 1)[0] == s[0]);
        assert(s.take(i + 1).drop_first() =~= s.drop_first().take(i));
        assert(s.take(i).drop_first() =~= s.drop_first().take(i - 1));
        assert(s.take(i)[0] == s[0]);
        assert(s.drop_first()[i - 1] == s[i]);
        assert(enc_leaf_list(s.take(i + 1)) == enc_leaf(s[0]) + enc_leaf_list(
            s.drop_first().take(i),
        ));
        assert(enc_leaf_list(s.take(i)) == enc_leaf(s[0]) + enc_leaf_list(
            s.drop_first().take(i - 1),
        ));
        assert(enc_leaf(s[0]) + (enc_leaf_list(s.drop_first().take(i - 1)) + enc_leaf(s[i])) =~= (
        enc_leaf(s[0]) + enc_leaf_list(s.drop_first().take(i - 1))) + enc_leaf(s[i]));
    }
}

/// Decoding the canonical encoding of a leaf list yields the views of the
/// leaves back.
proof fn lemma_leaf_list_round_trip(s: Seq<(Hash32, Vec<u8>)>, pre: Seq<u8>, post: Seq<u8>)
    ensures
        dec_leaf_list(pre + enc_leaf_list(s) + post, pre.len() as int, s.len() as nat) == Some(
            (s.map_values(|e: (Hash32, Vec<u8>)| (e.0@, e.1@)), pre.len() as int + enc_leaf_list(
                s,
            ).len() as int),
        ),
    decreases s.len(),
{
    vstd::bytes::lemma_auto_spec_u64_to_from_le_bytes();
    let views = s.map_values(|e: (Hash32, Vec<u8>)| (e.0@, e.1@));
    if s.len() == 0 {
        assert(views =~= Seq::<(Seq<u8>, Seq<u8>)>::empty());
        assert(enc_leaf_list(s) =~= Seq::<u8>::empty());
    } else {
        let e = s[0];
        let rest = s.drop_first();
        let data = pre + enc_leaf_list(s) + post;
        assert(e.1.len() == e.1@.len());
        assert(data =~= pre + e.0@ + (crate::bytes::enc_bytes(e.1@) + enc_leaf_list(rest)
            + post));
        crate::bytes::lemma_dec_h32_concat(pre, e.0@, crate::bytes::enc_bytes(e.1@)
            + enc_leaf_list(rest) + post);
        assert(data =~= (pre + e.0@) + crate::bytes::enc_bytes(e.1@) + (enc_leaf_list(rest)
            + post));
        crate::bytes::lemma_dec_bytes_concat(pre + e.0@, e.1@, enc_leaf_list(rest) + post);
        assert(data =~= (pre + e.0@ + crate::bytes::enc_bytes(e.1@)) + enc_leaf_list(rest)
            + post);
        lemma_leaf_list_round_trip(rest, pre + e.0@ + crate::bytes::enc_bytes(e.1@), post);
        assert(views =~= seq![(e.0@, e.1@)] + rest.map_values(
            |e2: (Hash32, Vec<u8>)| (e2.0@, e2.1@),
        ));
        assert(enc_leaf_list(s) == enc_leaf(e) + enc_leaf_list(rest));
    }
}

/// Decoding the canonical encoding of a trie snapshot yields the views of
/// the stored leaves back.
proof fn lemma_tree_round_trip(s: Seq<(Hash32, Vec<u8>)>)
    requires
        s.len() <= u64::MAX,
    ensures
        spec_decode_tree(spec_encode_tree(s)) == Some(
            s.map_values(|e: (Hash32, Vec<u8>)| (e.0@, e.1@)),
        ),
{
    vstd::bytes::lemma_auto_spec_u64_to_from_le_bytes();
    let data = spec_encode_tree(s);
    assert(data =~= Seq::<u8>::empty() + crate::bytes::enc_u64(s.len() as u64) + enc_leaf_list(
        s,
    ));
    crate::bytes::lemma_dec_u64_concat(Seq::<u8>::empty(), s.len() as u64, enc_leaf_list(s));
    assert(data =~= crate::bytes::enc_u64(s.len() as u64) + enc_leaf_list(s)
        + Seq::<u8>::empty());
    lemma_leaf_list_round_trip(s, crate::bytes::enc_u64(s.len() as u64), Seq::<u8>::empty());
}

} // verus!
