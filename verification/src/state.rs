//! Durable state store: the sparse Merkle trie paired with a persistent
//! byte map, applied in step, with witness emission and a monotonic
//! transition index.
//!
//! The persistent map is a sled database. Its handle is held exclusively
//! by the store; every call into sled goes through a trusted wrapper
//! whose contract speaks of the abstract contents [`sled_view`].

use vstd::prelude::*;

use crate::bytes::enc_u64;
use crate::bytes::write_u64;
use crate::hash::Hash32;
use crate::hash::TREE_DEPTH;
use crate::hash::spec_hash_key;
use crate::merkle::MerkleError;
use crate::merkle::SlotMap;
use crate::merkle::SparseMerkleTree;
use crate::merkle::UpdateWitness;
use crate::merkle::opt_bytes;
use crate::merkle::path_of;
use crate::merkle::slot_compatible;
use crate::merkle::slot_value;
use crate::merkle::slots_of_list;
use crate::merkle::spec_decode_tree;
use crate::merkle::spec_root_of;
use crate::transition::spec_chain;
use crate::transition::witnesses_wf;

verus! {

#[verifier::external_type_specification]
#[verifier::external_body]
pub struct ExDb(sled::Db);

#[verifier::external_type_specification]
#[verifier::external_body]
pub struct ExSledError(sled::Error);

/// The contents of a sled database handle: the map from byte keys to
/// byte values it currently holds.
pub uninterp spec fn sled_view(db: sled::Db) -> Map<Seq<u8>, Seq<u8>>;

/// Relies on sled::open: opens or creates the database at `path`; its
/// contents are whatever the directory holds.
#[verifier::external_body]
fn sled_open(path: &str) -> Result<sled::Db, sled::Error> {
    sled::open(path)
}

/// Relies on sled::Config::open with temporary(true): a temporary
/// database starts out empty.
#[verifier::external_body]
fn sled_open_temporary() -> (r: Result<sled::Db, sled::Error>)
    ensures
        match r {
            Ok(db) => sled_view(db) == Map::<Seq<u8>, Seq<u8>>::empty(),
            Err(_) => true,
        },
{
    sled::Config::new().temporary(true).open()
}

/// Relies on sled::Tree::get: returns the value the database holds for
/// the key.
#[verifier::external_body]
fn sled_get(db: &sled::Db, key: &[u8]) -> (r: Result<Option<Vec<u8>>, sled::Error>)
    ensures
        r matches Ok(v) ==> opt_bytes(v) == (if sled_view(*db).dom().contains(key@) {
            Some(sled_view(*db)[key@])
        } else {
            None::<Seq<u8>>
        }),
{
    match db.get(key) {
        Ok(v) => Ok(v.map(|iv| iv.to_vec())),
        Err(e) => Err(e),
    }
}

/// Relies on sled::Tree::insert: sets the key to the value; on an error
/// nothing is promised of the contents.
#[verifier::external_body]
fn sled_put(db: &mut sled::Db, key: &[u8], value: &[u8]) -> (r: Result<(), sled::Error>)
    ensures
        r is Ok ==> sled_view(*final(db)) == sled_view(*old(db)).insert(key@, value@),
{
    match db.insert(key, value) {
        Ok(_) => Ok(()),
        Err(e) => Err(e),
    }
}

/// Relies on sled::Tree::remove: removes the key; on an error nothing is
/// promised of the contents.
#[verifier::external_body]
fn sled_remove(db: &mut sled::Db, key: &[u8]) -> (r: Result<(), sled::Error>)
    ensures
        r is Ok ==> sled_view(*final(db)) == sled_view(*old(db)).remove(key@),
{
    match db.remove(key) {
        Ok(_) => Ok(()),
        Err(e) => Err(e),
    }
}

/// Relies on sled::Tree::flush: persists the database; the contents are
/// unchanged.
#[verifier::external_body]
fn sled_flush(db: &mut sled::Db) -> (r: Result<(), sled::Error>)
    ensures
        sled_view(*final(db)) == sled_view(*old(db)),
{
    match db.flush() {
        Ok(_) => Ok(()),
        Err(e) => Err(e),
    }
}

/// The result of a prefix scan over the map `db`: every returned pair
/// is stored and starts with the prefix, and every stored key with the
/// prefix is returned.
pub open spec fn scan_result_ok(
    db: Map<Seq<u8>, Seq<u8>>,
    prefix: Seq<u8>,
    v: Seq<(Vec<u8>, Vec<u8>)>,
) -> bool {
    &&& forall|i: int|
        0 <= i < v.len() ==> {
            &&& db.dom().contains((#[trigger] v[i]).0@)
            &&& db[v[i].0@] == v[i].1@
            &&& v[i].0@.len() >= prefix.len()
            &&& v[i].0@.take(prefix.len() as int) == prefix
        }
    &&& forall|k: Seq<u8>|
        (#[trigger] db.dom().contains(k)) && k.len() >= prefix.len() && k.take(
            prefix.len() as int,
        ) == prefix ==> exists|i: int| 0 <= i < v.len() && (#[trigger] v[i]).0@ == k
}

/// Relies on sled::Tree::scan_prefix: yields exactly the stored pairs
/// whose key starts with the prefix.
#[verifier::external_body]
fn sled_scan_prefix(db: &sled::Db, prefix: &[u8]) -> (r: Result<
    Vec<(Vec<u8>, Vec<u8>)>,
    sled::Error,
>)
    ensures
        r matches Ok(v) ==> scan_result_ok(sled_view(*db), prefix@, v@),
{
    db.scan_prefix(prefix)
        .map(|item| item.map(|(k, v)| (k.to_vec(), v.to_vec())))
        .collect::<Result<Vec<_>, _>>()
}

/// Errors that can occur during state operations.
#[derive(Debug)]
pub enum StateError {
    /// The persistent map failed.
    Database(sled::Error),
    /// A stored value did not decode.
    Serialization(String),
    /// A trie operation failed.
    Merkle(MerkleError),
    /// A required key was absent.
    KeyNotFound(String),
}

/// The reserved key under which the trie snapshot is persisted.
pub open spec fn spec_tree_key() -> Seq<u8> {
    seq![95u8, 95u8, 109u8, 101u8, 114u8, 107u8, 108u8, 101u8, 95u8, 116u8, 114u8, 101u8, 101u8, 95u8, 95u8]
}

/// The reserved key under which the transition index is persisted.
pub open spec fn spec_index_key() -> Seq<u8> {
    seq![95u8, 95u8, 116u8, 114u8, 97u8, 110u8, 115u8, 105u8, 116u8, 105u8, 111u8, 110u8, 95u8, 105u8, 110u8, 100u8, 101u8, 120u8, 95u8, 95u8]
}

/// The reserved trie-snapshot key, `__merkle_tree__` in ASCII.
fn tree_key() -> (r: Vec<u8>)
    ensures
        r@ == spec_tree_key(),
{
    let r: Vec<u8> = vec![95u8, 95u8, 109u8, 101u8, 114u8, 107u8, 108u8, 101u8, 95u8, 116u8, 114u8, 101u8, 101u8, 95u8, 95u8];
    proof {
        assert(r@ =~= spec_tree_key());
    }
    r
}

/// The reserved transition-index key, `__transition_index__` in ASCII.
fn index_key() -> (r: Vec<u8>)
    ensures
        r@ == spec_index_key(),
{
    let r: Vec<u8> = vec![95u8, 95u8, 116u8, 114u8, 97u8, 110u8, 115u8, 105u8, 116u8, 105u8, 111u8, 110u8, 95u8, 105u8, 110u8, 100u8, 101u8, 120u8, 95u8, 95u8];
    proof {
        assert(r@ =~= spec_index_key());
    }
    r
}

/// A state operation to be applied by a batch.
#[derive(Debug, Clone)]
pub enum StateOp {
    /// Insert or update a key-value pair.
    Insert { key: Vec<u8>, value: Vec<u8> },
    /// Delete a key.
    Delete { key: Vec<u8> },
}

impl StateOp {
    /// Create an insert operation.
    pub fn insert(key: Vec<u8>, value: Vec<u8>) -> (r: Self)
        ensures
            r matches StateOp::Insert { key: k, value: v } && k@ == key@ && v@ == value@,
    {
        StateOp::Insert { key, value }
    }

    /// Create a delete operation.
    pub fn delete(key: Vec<u8>) -> (r: Self)
        ensures
            r matches StateOp::Delete { key: k } && k@ == key@,
    {
        StateOp::Delete { key }
    }
}

/// The slot map after one state operation.
pub open spec fn apply_op(m: SlotMap, op: StateOp) -> SlotMap {
    match op {
        StateOp::Insert { key, value } => m.insert(
            path_of(spec_hash_key(key@)),
            (spec_hash_key(key@), value@),
        ),
        StateOp::Delete { key } => if slot_value(m, spec_hash_key(key@)) is Some {
            m.remove(path_of(spec_hash_key(key@)))
        } else {
            m
        },
    }
}

/// The slot map after a sequence of state operations, applied in order.
pub open spec fn apply_ops(m: SlotMap, ops: Seq<StateOp>) -> SlotMap
    decreases ops.len(),
{
    if ops.len() == 0 {
        m
    } else {
        apply_ops(apply_op(m, ops[0]), ops.drop_first())
    }
}

/// The persistent map after one state operation.
pub open spec fn apply_op_db(db: Map<Seq<u8>, Seq<u8>>, op: StateOp) -> Map<Seq<u8>, Seq<u8>> {
    match op {
        StateOp::Insert { key, value } => db.insert(key@, value@),
        StateOp::Delete { key } => db.remove(key@),
    }
}

/// The persistent map after a sequence of state operations, in order.
pub open spec fn apply_ops_db(db: Map<Seq<u8>, Seq<u8>>, ops: Seq<StateOp>) -> Map<Seq<u8>, Seq<u8>>
    decreases ops.len(),
{
    if ops.len() == 0 {
        db
    } else {
        apply_ops_db(apply_op_db(db, ops[0]), ops.drop_first())
    }
}

/// The persistent map after the first `i` operations of a batch.
pub open spec fn apply_ops_db_prefix(db: Map<Seq<u8>, Seq<u8>>, ops: Seq<StateOp>, i: int) -> Map<
    Seq<u8>,
    Seq<u8>,
> {
    apply_ops_db(db, ops.take(i))
}

/// Applying one more operation of a batch to the persistent map is one
/// `apply_op_db` step.
proof fn lemma_apply_ops_db_prefix_step(db: Map<Seq<u8>, Seq<u8>>, ops: Seq<StateOp>, i: int)
    requires
        0 <= i < ops.len(),
    ensures
        apply_ops_db_prefix(db, ops, i + 1) == apply_op_db(apply_ops_db_prefix(db, ops, i), ops[i]),
    decreases i,
{
    if i == 0 {
        assert(ops.take(0) =~= Seq::<StateOp>::empty());
        assert(ops.take(1)[0] == ops[0]);
        assert(ops.take(1).drop_first() =~= Seq::<StateOp>::empty());
        assert(apply_ops_db(apply_op_db(db, ops[0]), Seq::<StateOp>::empty()) == apply_op_db(
            db,
            ops[0],
        ));
        assert(apply_ops_db_prefix(db, ops, 1) == apply_op_db(db, ops[0]));
        assert(apply_ops_db(db, Seq::<StateOp>::empty()) == db);
        assert(apply_ops_db_prefix(db, ops, 0) == db);
    } else {
        assert(ops.take(i + 1)[0] == ops[0]);
        assert(ops.take(i)[0] == ops[0]);
        assert(ops.take(i + 1).drop_first() =~= ops.drop_first().take(i));
        assert(ops.take(i).drop_first() =~= ops.drop_first().take(i - 1));
        assert(ops.drop_first()[i - 1] == ops[i]);
        lemma_apply_ops_db_prefix_step(apply_op_db(db, ops[0]), ops.drop_first(), i - 1);
        assert(apply_ops_db_prefix(db, ops, i + 1) == apply_ops_db(
            apply_op_db(db, ops[0]),
            ops.drop_first().take(i),
        ));
        assert(apply_ops_db_prefix(db, ops, i) == apply_ops_db(
            apply_op_db(db, ops[0]),
            ops.drop_first().take(i - 1),
        ));
    }
}

/// The key an operation touches.
pub open spec fn op_key(op: StateOp) -> Seq<u8> {
    match op {
        StateOp::Insert { key, .. } => key@,
        StateOp::Delete { key } => key@,
    }
}

/// No operation of the batch touches a slot occupied by a foreign key
/// hash at the moment it is applied.
pub open spec fn ops_compatible(m: SlotMap, ops: Seq<StateOp>) -> bool
    decreases ops.len(),
{
    if ops.len() == 0 {
        true
    } else {
        slot_compatible(m, spec_hash_key(op_key(ops[0]))) && ops_compatible(
            apply_op(m, ops[0]),
            ops.drop_first(),
        )
    }
}

/// Appending a witness to a successful chain extends it exactly when the
/// witness starts from the chain's root.
pub proof fn lemma_chain_push(r0: Seq<u8>, ws: Seq<UpdateWitness>, x: Seq<u8>, w: UpdateWitness)
    requires
        spec_chain(r0, ws) == Some(x),
    ensures
        spec_chain(r0, ws.push(w)) == (if w.spec_old_root() == x {
            Some(w.spec_new_root())
        } else {
            None::<Seq<u8>>
        }),
    decreases ws.len(),
{
    if ws.len() == 0 {
        assert(ws.push(w)[0] == w);
        assert(ws.push(w).drop_first() =~= Seq::<UpdateWitness>::empty());
        assert(spec_chain(w.spec_new_root(), Seq::<UpdateWitness>::empty()) == Some(
            w.spec_new_root(),
        ));
    } else {
        assert(ws.push(w)[0] == ws[0]);
        assert(ws.push(w).drop_first() =~= ws.drop_first().push(w));
        lemma_chain_push(ws[0].spec_new_root(), ws.drop_first(), x, w);
    }
}

/// State store: a sparse Merkle trie over the application state, a
/// persistent byte map kept in step with it, and a monotonic transition
/// index.
pub struct StateStore {
    /// Underlying persistent key-value database.
    db: sled::Db,
    /// Merkle trie for state commitment.
    tree: SparseMerkleTree,
    /// Current transition index.
    transition_index: u64,
}

impl StateStore {
    /// Well-formedness of the store.
    pub closed spec fn wf(self) -> bool {
        self.tree.wf()
    }

    /// The slot map of the trie.
    pub closed spec fn tree_view(self) -> SlotMap {
        self.tree@
    }

    /// The contents of the persistent map.
    pub closed spec fn db_view(self) -> Map<Seq<u8>, Seq<u8>> {
        sled_view(self.db)
    }

    /// The current transition index.
    pub closed spec fn index_view(self) -> u64 {
        self.transition_index
    }

    /// Open or create a state store at the given path. The trie and the
    /// transition index are reloaded from the persistent map's reserved
    /// keys: an absent snapshot gives the empty trie, an absent or short
    /// index gives zero, and a present snapshot that does not decode is
    /// an error.
    pub fn open(path: &str) -> (r: Result<Self, StateError>)
        ensures
            r matches Ok(st) ==> {
                &&& st.wf()
                &&& st.db_view().dom().contains(spec_tree_key()) ==> (spec_decode_tree(
                    st.db_view()[spec_tree_key()],
                ) matches Some(pairs) && st.tree_view() == slots_of_list(pairs))
                &&& !st.db_view().dom().contains(spec_tree_key()) ==> st.tree_view() == Map::<
                    Seq<bool>,
                    (Seq<u8>, Seq<u8>),
                >::empty()
                &&& st.index_view() == (if st.db_view().dom().contains(spec_index_key()) {
                    match crate::bytes::dec_u64(st.db_view()[spec_index_key()], 0) {
                        Some(p) => p.0,
                        None => 0u64,
                    }
                } else {
                    0u64
                })
            },
    {
        let db = match sled_open(path) {
            Ok(db) => db,
            Err(e) => {
                return Err(StateError::Database(e));
            },
        };
        let tree = match sled_get(&db, tree_key().as_slice()) {
            Ok(Some(data)) => match SparseMerkleTree::deserialize(data.as_slice()) {
                Ok(t) => t,
                Err(e) => {
                    return Err(StateError::Merkle(e));
                },
            },
            Ok(None) => SparseMerkleTree::new(),
            Err(e) => {
                return Err(StateError::Database(e));
            },
        };
        let transition_index = match sled_get(&db, index_key().as_slice()) {
            Ok(Some(data)) => match crate::bytes::read_u64(data.as_slice(), 0) {
                Some((x, _)) => x,
                None => 0,
            },
            Ok(None) => 0,
            Err(e) => {
                return Err(StateError::Database(e));
            },
        };
        Ok(StateStore { db, tree, transition_index })
    }

    /// Create an empty in-memory state store backed by a temporary
    /// database.
    pub fn in_memory() -> (r: Result<Self, StateError>)
        ensures
            r matches Ok(st) ==> {
                &&& st.wf()
                &&& st.tree_view() == Map::<Seq<bool>, (Seq<u8>, Seq<u8>)>::empty()
                &&& st.db_view() == Map::<Seq<u8>, Seq<u8>>::empty()
                &&& st.index_view() == 0
                &&& spec_root_of(st.tree_view()) == crate::merkle::spec_empty_subtree(0)
            },
    {
        let db = match sled_open_temporary() {
            Ok(db) => db,
            Err(e) => {
                return Err(StateError::Database(e));
            },
        };
        Ok(StateStore { db, tree: SparseMerkleTree::new(), transition_index: 0 })
    }

    /// The current state root.
    pub fn root(&self) -> (r: Hash32)
        requires
            self.wf(),
        ensures
            r@ == spec_root_of(self.tree_view()),
    {
        self.tree.root()
    }

    /// The current transition index.
    pub fn transition_index(&self) -> (r: u64)
        ensures
            r == self.index_view(),
    {
        self.transition_index
    }

    /// Read a raw value from the persistent map (fast path: bypasses the
    /// trie).
    pub fn get_raw(&self, key: &[u8]) -> (r: Result<Option<Vec<u8>>, StateError>)
        ensures
            r matches Ok(v) ==> opt_bytes(v) == (if self.db_view().dom().contains(key@) {
                Some(self.db_view()[key@])
            } else {
                None::<Seq<u8>>
            }),
    {
        match sled_get(&self.db, key) {
            Ok(v) => Ok(v),
            Err(e) => Err(StateError::Database(e)),
        }
    }

    /// Read a value together with its Merkle proof; both come from the
    /// trie, so the pair is internally consistent.
    pub fn get_with_proof(&self, key: &[u8]) -> (r: Result<
        (Option<Vec<u8>>, crate::merkle::MerkleProof),
        StateError,
    >)
        requires
            self.wf(),
        ensures
            r is Ok,
            r matches Ok((v, proof)) ==> {
                &&& opt_bytes(v) == slot_value(self.tree_view(), spec_hash_key(key@))
                &&& proof.key@ == spec_hash_key(key@)
                &&& opt_bytes(proof.value) == slot_value(self.tree_view(), spec_hash_key(key@))
                &&& proof.siblings@.len() == TREE_DEPTH
                &&& slot_compatible(self.tree_view(), spec_hash_key(key@)) ==> proof.spec_root()
                    == spec_root_of(self.tree_view())
            },
    {
        let value = self.tree.get(key);
        let proof = self.tree.get_proof(key);
        Ok((value, proof))
    }

    /// Get a Merkle proof for a key.
    pub fn get_proof(&self, key: &[u8]) -> (r: crate::merkle::MerkleProof)
        requires
            self.wf(),
        ensures
            r.key@ == spec_hash_key(key@),
            opt_bytes(r.value) == slot_value(self.tree_view(), spec_hash_key(key@)),
            r.siblings@.len() == TREE_DEPTH,
            slot_compatible(self.tree_view(), spec_hash_key(key@)) ==> r.spec_root()
                == spec_root_of(self.tree_view()),
    {
        self.tree.get_proof(key)
    }

    /// Insert a raw value into the persistent map and the trie, returning
    /// the trie's update witness against the pre-mutation root. On an
    /// error the trie is untouched.
    pub fn insert_raw(&mut self, key: &[u8], value: Vec<u8>) -> (r: Result<
        UpdateWitness,
        StateError,
    >)
        requires
            old(self).wf(),
        ensures
            final(self).wf(),
            final(self).index_view() == old(self).index_view(),
            match r {
                Ok(w) => {
                    &&& final(self).tree_view() == insert_slot(old(self).tree_view(), key@, value@)
                    &&& final(self).db_view() == old(self).db_view().insert(key@, value@)
                    &&& w.key@ == spec_hash_key(key@)
                    &&& opt_bytes(w.old_value) == slot_value(
                        old(self).tree_view(),
                        spec_hash_key(key@),
                    )
                    &&& opt_bytes(w.new_value) == Some(value@)
                    &&& w.siblings@.len() == TREE_DEPTH
                    &&& slot_compatible(old(self).tree_view(), spec_hash_key(key@))
                        ==> w.spec_old_root() == spec_root_of(old(self).tree_view())
                    &&& w.spec_new_root() == spec_root_of(final(self).tree_view())
                },
                Err(_) => final(self).tree_view() == old(self).tree_view(),
            },
    {
        match sled_put(&mut self.db, key, value.as_slice()) {
            Ok(()) => {},
            Err(e) => {
                return Err(StateError::Database(e));
            },
        }
        let w = self.tree.insert(key, value);
        Ok(w)
    }

    /// Delete a key from the persistent map and the trie, returning the
    /// trie's update witness against the pre-mutation root. On an error
    /// the trie is untouched.
    pub fn delete(&mut self, key: &[u8]) -> (r: Result<UpdateWitness, StateError>)
        requires
            old(self).wf(),
        ensures
            final(self).wf(),
            final(self).index_view() == old(self).index_view(),
            match r {
                Ok(w) => {
                    &&& final(self).tree_view() == delete_slot(old(self).tree_view(), key@)
                    &&& final(self).db_view() == old(self).db_view().remove(key@)
                    &&& w.key@ == spec_hash_key(key@)
                    &&& opt_bytes(w.old_value) == slot_value(
                        old(self).tree_view(),
                        spec_hash_key(key@),
                    )
                    &&& w.new_value is None
                    &&& w.siblings@.len() == TREE_DEPTH
                    &&& slot_compatible(old(self).tree_view(), spec_hash_key(key@)) ==> {
                        &&& w.spec_old_root() == spec_root_of(old(self).tree_view())
                        &&& w.spec_new_root() == spec_root_of(final(self).tree_view())
                    }
                },
                Err(_) => final(self).tree_view() == old(self).tree_view(),
            },
    {
        match sled_remove(&mut self.db, key) {
            Ok(()) => {},
            Err(e) => {
                return Err(StateError::Database(e));
            },
        }
        let w = self.tree.delete(key);
        Ok(w)
    }

    /// Apply a batch of operations in order, emitting one witness per
    /// operation. Each successive witness is computed against the root
    /// its predecessor produced, so on success, and with no slot held by
    /// a foreign key hash, the witnesses chain the root from the state
    /// before the batch to the state after it.
    pub fn apply_batch(&mut self, ops: Vec<StateOp>) -> (r: Result<Vec<UpdateWitness>, StateError>)
        requires
            old(self).wf(),
        ensures
            final(self).wf(),
            final(self).index_view() == old(self).index_view(),
            match r {
                Ok(ws) => {
                    &&& final(self).tree_view() == apply_ops(old(self).tree_view(), ops@)
                    &&& final(self).db_view() == apply_ops_db(old(self).db_view(), ops@)
                    &&& ws@.len() == ops@.len()
                    &&& witnesses_wf(ws@)
                    &&& ops_compatible(old(self).tree_view(), ops@) ==> spec_chain(
                        spec_root_of(old(self).tree_view()),
                        ws@,
                    ) == Some(spec_root_of(final(self).tree_view()))
                },
                Err(_) => true,
            },
    {
        let ghost m0 = self.tree_view();
        let ghost db0 = self.db_view();
        let mut witnesses: Vec<UpdateWitness> = Vec::new();
        let mut i: usize = 0;
        proof {
            assert(ops@.take(0) =~= Seq::<StateOp>::empty());
        }
        while i < ops.len()
            invariant
                i <= ops@.len(),
                self.wf(),
                self.index_view() == old(self).index_view(),
                m0 == old(self).tree_view(),
                db0 == old(self).db_view(),
                self.db_view() == apply_ops_db_prefix(db0, ops@, i as int),
                witnesses@.len() == i,
                witnesses_wf(witnesses@),
                self.tree_view() == apply_ops_prefix(m0, ops@, i as int),
                ops_compatible(m0, ops@.take(i as int)) ==> spec_chain(
                    spec_root_of(m0),
                    witnesses@,
                ) == Some(spec_root_of(self.tree_view())),
            decreases ops@.len() - i,
        {
            let ghost m_before = self.tree_view();
            let ghost db_before = self.db_view();
            let ghost ws_before = witnesses@;
            match &ops[i] {
                StateOp::Insert { key, value } => {
                    let w = match self.insert_raw(key.as_slice(), value.clone()) {
                        Ok(w) => w,
                        Err(e) => {
                            return Err(e);
                        },
                    };
                    proof {
                        lemma_apply_ops_prefix_step(m0, ops@, i as int);
                        lemma_apply_ops_db_prefix_step(db0, ops@, i as int);
                        assert(self.tree_view() == apply_op(m_before, ops@[i as int]));
                        assert(self.db_view() == apply_op_db(db_before, ops@[i as int]));
                        if ops_compatible(m0, ops@.take(i as int + 1)) {
                            lemma_ops_compatible_prefix(m0, ops@, i as int);
                            lemma_chain_push(
                                spec_root_of(m0),
                                ws_before,
                                spec_root_of(m_before),
                                w,
                            );
                        }
                    }
                    witnesses.push(w);
                },
                StateOp::Delete { key } => {
                    let w = match self.delete(key.as_slice()) {
                        Ok(w) => w,
                        Err(e) => {
                            return Err(e);
                        },
                    };
                    proof {
                        lemma_apply_ops_prefix_step(m0, ops@, i as int);
                        lemma_apply_ops_db_prefix_step(db0, ops@, i as int);
                        assert(self.tree_view() == apply_op(m_before, ops@[i as int]));
                        assert(self.db_view() == apply_op_db(db_before, ops@[i as int]));
                        if ops_compatible(m0, ops@.take(i as int + 1)) {
                            lemma_ops_compatible_prefix(m0, ops@, i as int);
                            lemma_chain_push(
                                spec_root_of(m0),
                                ws_before,
                                spec_root_of(m_before),
                                w,
                            );
                        }
                    }
                    witnesses.push(w);
                },
            }
            i += 1;
        }
        proof {
            assert(ops@.take(ops@.len() as int) =~= ops@);
        }
        Ok(witnesses)
    }

    /// The stored pairs whose key starts with the prefix.
    pub fn scan_prefix(&self, prefix: &[u8]) -> (r: Result<Vec<(Vec<u8>, Vec<u8>)>, StateError>)
        ensures
            r matches Ok(v) ==> scan_result_ok(self.db_view(), prefix@, v@),
    {
        match sled_scan_prefix(&self.db, prefix) {
            Ok(v) => Ok(v),
            Err(e) => Err(StateError::Database(e)),
        }
    }

    /// Commit the current state: persist the trie snapshot and the
    /// incremented transition index under the reserved keys, flush, and
    /// return the root. The trie itself is unchanged, so a failed commit
    /// can be retried; the index is advanced even then, so a retried
    /// commit persists a skipped index.
    pub fn commit(&mut self) -> (r: Result<Hash32, StateError>)
        requires
            old(self).wf(),
            old(self).index_view() < u64::MAX,
        ensures
            final(self).wf(),
            final(self).tree_view() == old(self).tree_view(),
            final(self).index_view() == old(self).index_view() + 1,
            match r {
                Ok(root) => {
                    &&& root@ == spec_root_of(old(self).tree_view())
                    &&& exists|tb: Seq<u8>|
                        {
                            &&& final(self).db_view() == old(self).db_view().insert(
                                spec_tree_key(),
                                tb,
                            ).insert(spec_index_key(), enc_u64(final(self).index_view()))
                            &&& #[trigger] spec_decode_tree(tb) matches Some(pairs)
                                && slots_of_list(pairs) == old(self).tree_view()
                        }
                },
                Err(_) => true,
            },
    {
        self.transition_index = self.transition_index + 1;
        let tree_data = match self.tree.serialize() {
            Ok(d) => d,
            Err(e) => {
                return Err(StateError::Merkle(e));
            },
        };
        match sled_put(&mut self.db, tree_key().as_slice(), tree_data.as_slice()) {
            Ok(()) => {},
            Err(e) => {
                return Err(StateError::Database(e));
            },
        }
        let mut index_bytes: Vec<u8> = Vec::new();
        write_u64(&mut index_bytes, self.transition_index);
        proof {
            assert(index_bytes@ =~= enc_u64(self.transition_index));
        }
        match sled_put(&mut self.db, index_key().as_slice(), index_bytes.as_slice()) {
            Ok(()) => {},
            Err(e) => {
                return Err(StateError::Database(e));
            },
        }
        match sled_flush(&mut self.db) {
            Ok(()) => {},
            Err(e) => {
                return Err(StateError::Database(e));
            },
        }
        let root = self.tree.root();
        proof {
            let tb = tree_data@;
            assert(spec_decode_tree(tb) matches Some(pairs) && slots_of_list(pairs)
                == self.tree_view());
        }
        Ok(root)
    }
}

/// The slot map after inserting one key-value pair.
pub open spec fn insert_slot(m: SlotMap, key: Seq<u8>, value: Seq<u8>) -> SlotMap {
    m.insert(path_of(spec_hash_key(key)), (spec_hash_key(key), value))
}

/// The slot map after deleting one key: the slot goes away exactly when
/// it held the key's hash.
pub open spec fn delete_slot(m: SlotMap, key: Seq<u8>) -> SlotMap {
    if slot_value(m, spec_hash_key(key)) is Some {
        m.remove(path_of(spec_hash_key(key)))
    } else {
        m
    }
}

/// The slot map after the first `i` operations of a batch.
pub open spec fn apply_ops_prefix(m: SlotMap, ops: Seq<StateOp>, i: int) -> SlotMap {
    apply_ops(m, ops.take(i))
}

/// Applying one more operation of a batch is one `apply_op` step.
proof fn lemma_apply_ops_prefix_step(m: SlotMap, ops: Seq<StateOp>, i: int)
    requires
        0 <= i < ops.len(),
    ensures
        apply_ops_prefix(m, ops, i + 1) == apply_op(apply_ops_prefix(m, ops, i), ops[i]),
    decreases i,
{
    if i == 0 {
        assert(ops.take(0) =~= Seq::<StateOp>::empty());
        assert(ops.take(1)[0] == ops[0]);
        assert(ops.take(1).drop_first() =~= Seq::<StateOp>::empty());
        assert(apply_ops(apply_op(m, ops[0]), Seq::<StateOp>::empty()) == apply_op(m, ops[0]));
        assert(apply_ops_prefix(m, ops, 1) == apply_op(m, ops[0]));
        assert(apply_ops(m, Seq::<StateOp>::empty()) == m);
        assert(apply_ops_prefix(m, ops, 0) == m);
    } else {
        assert(ops.take(i + 1)[0] == ops[0]);
        assert(ops.take(i)[0] == ops[0]);
        assert(ops.take(i + 1).drop_first() =~= ops.drop_first().take(i));
        assert(ops.take(i).drop_first() =~= ops.drop_first().take(i - 1));
        assert(ops.drop_first()[i - 1] == ops[i]);
        lemma_apply_ops_prefix_step(apply_op(m, ops[0]), ops.drop_first(), i - 1);
        assert(apply_ops_prefix(m, ops, i + 1) == apply_ops(
            apply_op(m, ops[0]),
            ops.drop_first().take(i),
        ));
        assert(apply_ops_prefix(m, ops, i) == apply_ops(
            apply_op(m, ops[0]),
            ops.drop_first().take(i - 1),
        ));
    }
}

/// Compatibility of a longer prefix gives compatibility at each step.
proof fn lemma_ops_compatible_prefix(m: SlotMap, ops: Seq<StateOp>, i: int)
    requires
        0 <= i < ops.len(),
        ops_compatible(m, ops.take(i + 1)),
    ensures
        ops_compatible(m, ops.take(i)),
        slot_compatible(apply_ops_prefix(m, ops, i), spec_hash_key(op_key(ops[i]))),
    decreases i,
{
    if i == 0 {
        assert(ops.take(0) =~= Seq::<StateOp>::empty());
        assert(ops.take(1)[0] == ops[0]);
    } else {
        assert(ops.take(i + 1)[0] == ops[0]);
        assert(ops.take(i)[0] == ops[0]);
        assert(ops.take(i + 1).drop_first() =~= ops.drop_first().take(i));
        assert(ops.take(i).drop_first() =~= ops.drop_first().take(i - 1));
        assert(ops.drop_first()[i - 1] == ops[i]);
        lemma_ops_compatible_prefix(apply_op(m, ops[0]), ops.drop_first(), i - 1);
        lemma_apply_ops_prefix_step(m, ops, i);
        assert(apply_ops_prefix(apply_op(m, ops[0]), ops.drop_first(), i - 1)
            == apply_ops(apply_op(m, ops[0]), ops.drop_first().take(i - 1)));
        lemma_apply_prefix_shift(m, ops, i);
    }
}

/// Prefixes commute with dropping the first operation.
proof fn lemma_apply_prefix_shift(m: SlotMap, ops: Seq<StateOp>, i: int)
    requires
        0 < i <= ops.len(),
    ensures
        apply_ops_prefix(m, ops, i) == apply_ops_prefix(
            apply_op(m, ops[0]),
            ops.drop_first(),
            i - 1,
        ),
{
    assert(ops.take(i)[0] == ops[0]);
    assert(ops.take(i).drop_first() =~= ops.drop_first().take(i - 1));
}

/// Builder for a batch of state operations.
pub struct TransitionBuilder {
    ops: Vec<StateOp>,
}

impl TransitionBuilder {
    /// The operations collected so far.
    pub closed spec fn ops_view(self) -> Seq<StateOp> {
        self.ops@
    }

    /// Create a new empty builder.
    pub fn new() -> (r: Self)
        ensures
            r.ops_view().len() == 0,
    {
        TransitionBuilder { ops: Vec::new() }
    }

    /// Add an insert operation.
    pub fn insert(self, key: Vec<u8>, value: Vec<u8>) -> (r: Self)
        ensures
            r.ops_view().len() == self.ops_view().len() + 1,
            forall|i: int| 0 <= i < self.ops_view().len() ==> r.ops_view()[i] == self.ops_view()[i],
            r.ops_view().last() matches StateOp::Insert { key: k, value: v } && k@ == key@ && v@
                == value@,
    {
        let mut ops = self.ops;
        ops.push(StateOp::Insert { key, value });
        TransitionBuilder { ops }
    }

    /// Add a delete operation.
    pub fn delete(self, key: Vec<u8>) -> (r: Self)
        ensures
            r.ops_view().len() == self.ops_view().len() + 1,
            forall|i: int| 0 <= i < self.ops_view().len() ==> r.ops_view()[i] == self.ops_view()[i],
            r.ops_view().last() matches StateOp::Delete { key: k } && k@ == key@,
    {
        let mut ops = self.ops;
        ops.push(StateOp::Delete { key });
        TransitionBuilder { ops }
    }

    /// Build the operation list.
    pub fn build(self) -> (r: Vec<StateOp>)
        ensures
            r@ == self.ops_view(),
    {
        self.ops
    }
}

} // verus!
