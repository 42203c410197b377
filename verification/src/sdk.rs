//! Application-facing context: state reads and writes that record the
//! operations performed and the Merkle witnesses they produced, ready to
//! be packaged into a transition.

use vstd::prelude::*;

use crate::bytes::dec_u64;
use crate::bytes::enc_u64;
use crate::bytes::read_u64;
use crate::bytes::write_u64;
use crate::hash::Hash32;
use crate::hash::spec_hash_key;
use crate::merkle::MerkleProof;
use crate::merkle::SlotMap;
use crate::merkle::UpdateWitness;
use crate::merkle::opt_bytes;
use crate::merkle::slot_compatible;
use crate::merkle::slot_value;
use crate::merkle::spec_root_of;
use crate::state::StateError;
use crate::state::StateOp;
use crate::state::StateStore;
use crate::state::delete_slot;
use crate::state::insert_slot;

verus! {

/// Errors raised by the application context.
#[derive(Debug)]
pub enum SdkError {
    /// The state store failed.
    State(StateError),
    /// A stored value did not decode.
    Serialization(String),
    /// An application rule was broken.
    Application(String),
    /// A required key was absent.
    KeyNotFound(String),
}

/// A typed-key prefix: a marker type naming a byte prefix.
pub trait KeyPrefix {
    /// The prefix bytes, as a sequence.
    spec fn spec_prefix() -> Seq<u8>;

    /// The prefix bytes.
    fn prefix() -> (r: &'static [u8])
        ensures
            r@ == Self::spec_prefix(),
    ;
}

/// A typed key: an identifier under a marker type's prefix.
#[derive(Debug)]
pub struct TypedKey<T: KeyPrefix> {
    /// The identifier under the prefix.
    pub id: Vec<u8>,
    _marker: core::marker::PhantomData<T>,
}

impl<T: KeyPrefix> TypedKey<T> {
    /// The identifier bytes.
    pub closed spec fn id_view(self) -> Seq<u8> {
        self.id@
    }

    /// Create a new typed key.
    pub fn new(id: Vec<u8>) -> (r: Self)
        ensures
            r.id_view() == id@,
    {
        TypedKey { id, _marker: core::marker::PhantomData }
    }

    /// The full key bytes: the prefix, a colon, the identifier.
    pub fn to_bytes(&self) -> (r: Vec<u8>)
        ensures
            r@ == T::spec_prefix() + seq![58u8] + self.id_view(),
    {
        let mut bytes: Vec<u8> = Vec::new();
        bytes.extend_from_slice(T::prefix());
        bytes.push(58u8);
        bytes.extend_from_slice(self.id.as_slice());
        proof {
            assert(bytes@ =~= T::spec_prefix() + seq![58u8] + self.id@);
        }
        bytes
    }
}

/// Helper for building keys under a byte prefix.
pub struct KeyBuilder {
    prefix: Vec<u8>,
}

impl KeyBuilder {
    /// The prefix this builder uses.
    pub closed spec fn prefix_view(self) -> Seq<u8> {
        self.prefix@
    }

    /// Create a new key builder with a prefix.
    pub fn new(prefix: Vec<u8>) -> (r: Self)
        ensures
            r.prefix_view() == prefix@,
    {
        KeyBuilder { prefix }
    }

    /// Build a key: the prefix, a colon, the suffix.
    pub fn key(&self, suffix: &[u8]) -> (r: Vec<u8>)
        ensures
            r@ == self.prefix_view() + seq![58u8] + suffix@,
    {
        let mut key = self.prefix.clone();
        key.push(58u8);
        key.extend_from_slice(suffix);
        proof {
            assert(key@ =~= self.prefix_view() + seq![58u8] + suffix@);
        }
        key
    }
}

/// Context for application execution: state reads and writes that
/// automatically track operations and Merkle witnesses.
pub struct Context {
    store: StateStore,
    operations: Vec<StateOp>,
    witnesses: Vec<UpdateWitness>,
}

impl Context {
    /// Well-formedness of the context.
    pub closed spec fn wf(self) -> bool {
        self.store.wf()
    }

    /// The trie slot map.
    pub closed spec fn tree_view(self) -> SlotMap {
        self.store.tree_view()
    }

    /// The persistent map contents.
    pub closed spec fn db_view(self) -> Map<Seq<u8>, Seq<u8>> {
        self.store.db_view()
    }

    /// The operations performed so far.
    pub closed spec fn ops_view(self) -> Seq<StateOp> {
        self.operations@
    }

    /// The witnesses collected so far.
    pub closed spec fn wits_view(self) -> Seq<UpdateWitness> {
        self.witnesses@
    }

    /// Create a new context over a state store.
    pub fn new(store: StateStore) -> (r: Self)
        requires
            store.wf(),
        ensures
            r.wf(),
            r.tree_view() == store.tree_view(),
            r.db_view() == store.db_view(),
            r.ops_view().len() == 0,
            r.wits_view().len() == 0,
    {
        Context { store, operations: Vec::new(), witnesses: Vec::new() }
    }

    /// The current state root.
    pub fn root(&self) -> (r: Hash32)
        requires
            self.wf(),
        ensures
            r@ == spec_root_of(self.tree_view()),
    {
        self.store.root()
    }

    /// Read a raw value.
    pub fn get_raw(&self, key: &[u8]) -> (r: Result<Option<Vec<u8>>, SdkError>)
        ensures
            r matches Ok(v) ==> opt_bytes(v) == (if self.db_view().dom().contains(key@) {
                Some(self.db_view()[key@])
            } else {
                None::<Seq<u8>>
            }),
            r matches Err(e) ==> e matches SdkError::State(_),
    {
        match self.store.get_raw(key) {
            Ok(v) => Ok(v),
            Err(e) => Err(SdkError::State(e)),
        }
    }

    /// Whether a key exists in the persistent map.
    pub fn contains_key(&self, key: &[u8]) -> (r: Result<bool, SdkError>)
        ensures
            r matches Ok(b) ==> b == self.db_view().dom().contains(key@),
            r matches Err(e) ==> e matches SdkError::State(_),
    {
        match self.get_raw(key) {
            Ok(v) => Ok(v.is_some()),
            Err(e) => Err(e),
        }
    }

    /// Write a raw value, recording the operation and its witness.
    pub fn set_raw(&mut self, key: &[u8], value: Vec<u8>) -> (r: Result<(), SdkError>)
        requires
            old(self).wf(),
        ensures
            final(self).wf(),
            match r {
                Ok(()) => {
                    &&& final(self).tree_view() == insert_slot(
                        old(self).tree_view(),
                        key@,
                        value@,
                    )
                    &&& final(self).db_view() == old(self).db_view().insert(key@, value@)
                    &&& final(self).ops_view().len() == old(self).ops_view().len() + 1
                    &&& final(self).ops_view().last() matches StateOp::Insert {
                        key: k,
                        value: v,
                    } && k@ == key@ && v@ == value@
                    &&& final(self).wits_view().len() == old(self).wits_view().len() + 1
                    &&& forall|i: int|
                        0 <= i < old(self).wits_view().len() ==> final(self).wits_view()[i]
                            == old(self).wits_view()[i]
                    &&& final(self).wits_view().last().key@ == spec_hash_key(key@)
                    &&& opt_bytes(final(self).wits_view().last().new_value) == Some(value@)
                    &&& slot_compatible(old(self).tree_view(), spec_hash_key(key@))
                        ==> final(self).wits_view().last().spec_old_root() == spec_root_of(
                        old(self).tree_view(),
                    )
                    &&& final(self).wits_view().last().spec_new_root() == spec_root_of(
                        final(self).tree_view(),
                    )
                },
                Err(e) => {
                    &&& e matches SdkError::State(_)
                    &&& final(self).tree_view() == old(self).tree_view()
                    &&& final(self).ops_view() == old(self).ops_view()
                    &&& final(self).wits_view() == old(self).wits_view()
                },
            },
    {
        let value_copy = value.clone();
        let witness = match self.store.insert_raw(key, value_copy) {
            Ok(w) => w,
            Err(e) => {
                return Err(SdkError::State(e));
            },
        };
        let mut key_vec: Vec<u8> = Vec::new();
        key_vec.extend_from_slice(key);
        self.operations.push(StateOp::Insert { key: key_vec, value });
        self.witnesses.push(witness);
        Ok(())
    }

    /// Delete a key, recording the operation and its witness.
    pub fn delete(&mut self, key: &[u8]) -> (r: Result<(), SdkError>)
        requires
            old(self).wf(),
        ensures
            final(self).wf(),
            match r {
                Ok(()) => {
                    &&& final(self).tree_view() == delete_slot(old(self).tree_view(), key@)
                    &&& final(self).db_view() == old(self).db_view().remove(key@)
                    &&& final(self).ops_view().len() == old(self).ops_view().len() + 1
                    &&& final(self).ops_view().last() matches StateOp::Delete { key: k } && k@
                        == key@
                    &&& final(self).wits_view().len() == old(self).wits_view().len() + 1
                },
                Err(e) => {
                    &&& e matches SdkError::State(_)
                    &&& final(self).tree_view() == old(self).tree_view()
                    &&& final(self).ops_view() == old(self).ops_view()
                    &&& final(self).wits_view() == old(self).wits_view()
                },
            },
    {
        let witness = match self.store.delete(key) {
            Ok(w) => w,
            Err(e) => {
                return Err(SdkError::State(e));
            },
        };
        let mut key_vec: Vec<u8> = Vec::new();
        key_vec.extend_from_slice(key);
        self.operations.push(StateOp::Delete { key: key_vec });
        self.witnesses.push(witness);
        Ok(())
    }

    /// Read a 64-bit counter stored as eight little-endian bytes.
    pub fn get_u64(&self, key: &[u8]) -> (r: Result<Option<u64>, SdkError>)
        ensures
            match r {
                Ok(v) => match v {
                    Some(x) => {
                        &&& self.db_view().dom().contains(key@)
                        &&& dec_u64(self.db_view()[key@], 0) matches Some(p) && p.0 == x
                    },
                    None => !self.db_view().dom().contains(key@),
                },
                Err(SdkError::Serialization(_)) => self.db_view().dom().contains(key@)
                    && dec_u64(self.db_view()[key@], 0) is None,
                Err(e) => e matches SdkError::State(_),
            },
    {
        let data = match self.get_raw(key) {
            Ok(Some(d)) => d,
            Ok(None) => {
                return Ok(None);
            },
            Err(e) => {
                return Err(e);
            },
        };
        match read_u64(data.as_slice(), 0) {
            Some((x, _)) => Ok(Some(x)),
            None => Err(SdkError::Serialization("stored counter too short".to_owned())),
        }
    }

    /// Write a 64-bit counter as eight little-endian bytes.
    pub fn set_u64(&mut self, key: &[u8], value: u64) -> (r: Result<(), SdkError>)
        requires
            old(self).wf(),
        ensures
            final(self).wf(),
            r is Ok ==> {
                &&& final(self).tree_view() == insert_slot(
                    old(self).tree_view(),
                    key@,
                    enc_u64(value),
                )
                &&& final(self).db_view() == old(self).db_view().insert(key@, enc_u64(value))
            },
            r matches Err(e) ==> e matches SdkError::State(_),
    {
        let mut data: Vec<u8> = Vec::new();
        write_u64(&mut data, value);
        self.set_raw(key, data)
    }

    /// The operations performed so far.
    pub fn operations(&self) -> (r: &[StateOp])
        ensures
            r@ == self.ops_view(),
    {
        self.operations.as_slice()
    }

    /// The witnesses collected so far.
    pub fn witnesses(&self) -> (r: &[UpdateWitness])
        ensures
            r@ == self.wits_view(),
    {
        self.witnesses.as_slice()
    }

    /// Take the witnesses, leaving none behind.
    pub fn take_witnesses(&mut self) -> (r: Vec<UpdateWitness>)
        requires
            old(self).wf(),
        ensures
            final(self).wf(),
            r@ == old(self).wits_view(),
            final(self).wits_view().len() == 0,
            final(self).tree_view() == old(self).tree_view(),
            final(self).db_view() == old(self).db_view(),
            final(self).ops_view() == old(self).ops_view(),
    {
        let r = self.witnesses.split_off(0);
        proof {
            assert(r@ =~= old(self).witnesses@);
            assert(self.witnesses@ =~= Seq::<UpdateWitness>::empty());
        }
        r
    }

    /// Commit the state changes.
    pub fn commit(&mut self) -> (r: Result<Hash32, SdkError>)
        requires
            old(self).wf(),
            old(self).index_view() < u64::MAX,
        ensures
            final(self).wf(),
            final(self).tree_view() == old(self).tree_view(),
            r matches Ok(root) ==> root@ == spec_root_of(old(self).tree_view()),
    {
        match self.store.commit() {
            Ok(root) => Ok(root),
            Err(e) => Err(SdkError::State(e)),
        }
    }

    /// The current transition index of the underlying store.
    pub closed spec fn index_view(self) -> u64 {
        self.store.index_view()
    }

    /// Get a Merkle proof for a key.
    pub fn get_proof(&self, key: &[u8]) -> (r: MerkleProof)
        requires
            self.wf(),
        ensures
            r.key@ == spec_hash_key(key@),
            opt_bytes(r.value) == slot_value(self.tree_view(), spec_hash_key(key@)),
            slot_compatible(self.tree_view(), spec_hash_key(key@)) ==> r.spec_root()
                == spec_root_of(self.tree_view()),
    {
        self.store.get_proof(key)
    }

    /// Give the underlying store back.
    pub fn into_store(self) -> (r: StateStore)
        ensures
            r.wf() == self.wf(),
            r.tree_view() == self.tree_view(),
            r.db_view() == self.db_view(),
    {
        self.store
    }
}

} // verus!
