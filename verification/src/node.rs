//! Node orchestration: apply a batch of operations, commit the state,
//! run the guest verifier over the emitted witnesses, assemble the
//! canonical blob, and record history.
//!
//! Proof generation and posting to the data-availability layer happen
//! outside; the caller runs those and reports the resulting height back
//! through [`AppNode::note_da_height`].

use vstd::prelude::*;

use crate::blob::BlobView;
use crate::blob::SCHEMA_VERSION;
use crate::blob::TransitionBlobV1;
use crate::guest::GuestError;
use crate::guest::run_transition;
use crate::guest::spec_operations_ok;
use crate::hash::Hash32;
use crate::hash::hash_eq;
use crate::merkle::MerkleProof;
use crate::merkle::UpdateWitness;
use crate::merkle::opt_bytes;
use crate::merkle::slot_compatible;
use crate::merkle::slot_value;
use crate::merkle::spec_root_of;
use crate::namespace::Namespace;
use crate::state::StateError;
use crate::state::StateOp;
use crate::state::StateStore;
use crate::state::apply_ops;
use crate::state::ops_compatible;
use crate::transition::TransitionInput;
use crate::transition::VerifiableOperation;
use crate::transition::spec_chain;

verus! {

/// Configuration for the app node.
#[derive(Debug, Clone)]
pub struct AppNodeConfig {
    /// Path to the state database directory.
    pub data_dir: String,
    /// Application identifier carried in every blob.
    pub app_id: Vec<u8>,
    /// Data-availability namespace.
    pub namespace: Namespace,
    /// Data-availability RPC URL.
    pub celestia_rpc: String,
    /// Whether blobs are posted to the data-availability layer.
    pub celestia_enabled: bool,
    /// Whether transitions are proven rather than just executed.
    pub proving_enabled: bool,
    /// Hash of the verifier program image, embedded in every blob.
    pub program_hash: Hash32,
}

impl Default for AppNodeConfig {
    /// The default configuration: a local data directory and RPC, the
    /// `zkapp` namespace, posting and proving enabled, and an all-zero
    /// program hash until an image is configured.
    fn default() -> (r: Self)
        ensures
            r.celestia_enabled,
            r.proving_enabled,
            r.program_hash@ == crate::hash::zero32(),
    {
        let program_hash = crate::hash::empty_hash();
        AppNodeConfig {
            data_dir: "./data".to_owned(),
            app_id: vec![100u8, 101u8, 102u8, 97u8, 117u8, 108u8, 116u8, 45u8, 97u8, 112u8, 112u8],
            namespace: Namespace::from_string("zkapp"),
            celestia_rpc: crate::chain::DEFAULT_RPC_URL.to_owned(),
            celestia_enabled: true,
            proving_enabled: true,
            program_hash,
        }
    }
}

/// Errors raised by node orchestration.
#[derive(Debug)]
pub enum NodeError {
    /// The state store failed.
    State(StateError),
    /// The guest verifier rejected the transition.
    Guest(GuestError),
    /// The guest's committed root pair contradicts the locally computed
    /// one.
    OutputMismatch,
    /// The transition index would overflow.
    IndexOverflow,
}

/// Result of applying a transition.
#[derive(Debug)]
pub struct TransitionResult {
    /// Sequence number of this transition.
    pub sequence: u64,
    /// Previous state root.
    pub prev_root: Hash32,
    /// New state root.
    pub new_root: Hash32,
    /// Proof bytes (empty when the transition was only executed).
    pub proof_bytes: Vec<u8>,
    /// The blob that is to be posted.
    pub blob: TransitionBlobV1,
    /// Height at which the blob was posted, when it was.
    pub celestia_height: Option<u64>,
}

/// The application node core: the state store, the configuration, and
/// the append-only history of `(root, height)` pairs, one per committed
/// sequence number starting from genesis.
pub struct AppNode {
    store: StateStore,
    config: AppNodeConfig,
    root_history: Vec<(Hash32, Option<u64>)>,
}

impl AppNode {
    /// Well-formedness of the node.
    pub closed spec fn wf(self) -> bool {
        &&& self.store.wf()
        &&& self.root_history@.len() >= 1
    }

    /// The trie slot map of the store.
    pub closed spec fn tree_view(self) -> crate::merkle::SlotMap {
        self.store.tree_view()
    }

    /// The current transition index.
    pub closed spec fn index_view(self) -> u64 {
        self.store.index_view()
    }

    /// The recorded history.
    pub closed spec fn history_view(self) -> Seq<(Hash32, Option<u64>)> {
        self.root_history@
    }

    /// The configuration.
    pub closed spec fn config_view(self) -> AppNodeConfig {
        self.config
    }

    /// The contents of the store's persistent map.
    pub closed spec fn db_view(self) -> Map<Seq<u8>, Seq<u8>> {
        self.store.db_view()
    }

    /// Open a node over the state store in the configured directory,
    /// with history starting at the loaded root: the trie and transition
    /// index come from the persistent map's reserved keys, as the store
    /// reloads them.
    pub fn new(config: AppNodeConfig) -> (r: Result<Self, NodeError>)
        ensures
            r matches Ok(node) ==> {
                &&& node.wf()
                &&& node.history_view().len() == 1
                &&& node.history_view()[0].1 is None
                &&& node.history_view()[0].0@ == spec_root_of(node.tree_view())
                &&& node.config_view() == config
                &&& node.db_view().dom().contains(crate::state::spec_tree_key()) ==> (
                crate::merkle::spec_decode_tree(
                    node.db_view()[crate::state::spec_tree_key()],
                ) matches Some(pairs) && node.tree_view() == crate::merkle::slots_of_list(pairs))
                &&& !node.db_view().dom().contains(crate::state::spec_tree_key())
                    ==> node.tree_view() == Map::<Seq<bool>, (Seq<u8>, Seq<u8>)>::empty()
                &&& node.index_view() == (if node.db_view().dom().contains(
                    crate::state::spec_index_key(),
                ) {
                    match crate::bytes::dec_u64(
                        node.db_view()[crate::state::spec_index_key()],
                        0,
                    ) {
                        Some(p) => p.0,
                        None => 0u64,
                    }
                } else {
                    0u64
                })
            },
    {
        let path = config.data_dir.clone().concat("/state");
        let store = match StateStore::open(path.as_str()) {
            Ok(s) => s,
            Err(e) => {
                return Err(NodeError::State(e));
            },
        };
        let initial_root = store.root();
        let mut root_history: Vec<(Hash32, Option<u64>)> = Vec::new();
        root_history.push((initial_root, None));
        Ok(AppNode { store, config, root_history })
    }

    /// Open a node over a fresh in-memory store: the genesis state, with
    /// the empty root, a zero transition index, and a one-entry history.
    pub fn in_memory(config: AppNodeConfig) -> (r: Result<Self, NodeError>)
        ensures
            r matches Ok(node) ==> {
                &&& node.wf()
                &&& node.tree_view() == Map::<Seq<bool>, (Seq<u8>, Seq<u8>)>::empty()
                &&& node.index_view() == 0
                &&& node.history_view().len() == 1
                &&& node.history_view()[0].0@ == crate::merkle::spec_empty_subtree(0)
                &&& node.history_view()[0].1 is None
                &&& node.config_view() == config
            },
    {
        let store = match StateStore::in_memory() {
            Ok(s) => s,
            Err(e) => {
                return Err(NodeError::State(e));
            },
        };
        let initial_root = store.root();
        let mut root_history: Vec<(Hash32, Option<u64>)> = Vec::new();
        root_history.push((initial_root, None));
        Ok(AppNode { store, config, root_history })
    }

    /// The current state root.
    pub fn root(&self) -> (r: Hash32)
        requires
            self.wf(),
        ensures
            r@ == spec_root_of(self.tree_view()),
    {
        self.store.root()
    }

    /// The current transition index.
    pub fn transition_index(&self) -> (r: u64)
        ensures
            r == self.index_view(),
    {
        self.store.transition_index()
    }

    /// Get a raw value from the store's persistent map.
    pub fn get(&self, key: &[u8]) -> (r: Result<Option<Vec<u8>>, NodeError>)
        requires
            self.wf(),
        ensures
            r matches Ok(v) ==> opt_bytes(v) == (if self.db_view().dom().contains(key@) {
                Some(self.db_view()[key@])
            } else {
                None::<Seq<u8>>
            }),
    {
        match self.store.get_raw(key) {
            Ok(v) => Ok(v),
            Err(e) => Err(NodeError::State(e)),
        }
    }

    /// Get a value with its Merkle proof.
    pub fn get_with_proof(&self, key: &[u8]) -> (r: Result<
        (Option<Vec<u8>>, MerkleProof),
        NodeError,
    >)
        requires
            self.wf(),
        ensures
            r is Ok,
            r matches Ok((v, proof)) ==> {
                &&& opt_bytes(v) == slot_value(
                    self.tree_view(),
                    crate::hash::spec_hash_key(key@),
                )
                &&& proof.key@ == crate::hash::spec_hash_key(key@)
                &&& opt_bytes(proof.value) == opt_bytes(v)
                &&& proof.siblings@.len() == crate::hash::TREE_DEPTH
                &&& slot_compatible(self.tree_view(), crate::hash::spec_hash_key(key@))
                    ==> proof.spec_root() == spec_root_of(self.tree_view())
            },
    {
        match self.store.get_with_proof(key) {
            Ok(p) => Ok(p),
            Err(e) => Err(NodeError::State(e)),
        }
    }

    /// Apply a batch of operations as one transition: apply and commit
    /// the state, run the guest verifier over the emitted witnesses,
    /// check the committed root pair against the local one, and record
    /// history. The blob carries an empty proof until a prover attests
    /// the transition.
    pub fn apply_transition(
        &mut self,
        ops: Vec<StateOp>,
        public_inputs: Vec<u8>,
        private_inputs: Vec<u8>,
        verifiable_ops: Vec<VerifiableOperation>,
        timestamp: Option<u64>,
    ) -> (r: Result<TransitionResult, NodeError>)
        requires
            old(self).wf(),
        ensures
            final(self).wf(),
            r matches Err(NodeError::IndexOverflow) <==> old(self).index_view() == u64::MAX,
            r is Err ==> final(self).history_view() == old(self).history_view(),
            match r {
                Ok(res) => {
                    &&& final(self).index_view() == old(self).index_view() + 1
                    &&& final(self).tree_view() == apply_ops(old(self).tree_view(), ops@)
                    &&& res.sequence == old(self).index_view() + 1
                    &&& res.prev_root@ == spec_root_of(old(self).tree_view())
                    &&& res.new_root@ == spec_root_of(final(self).tree_view())
                    &&& res.proof_bytes@.len() == 0
                    &&& res.celestia_height is None
                    &&& res.blob@ == (BlobView {
                        version: SCHEMA_VERSION,
                        app_id: old(self).config_view().app_id@,
                        sequence: res.sequence,
                        prev_root: res.prev_root@,
                        new_root: res.new_root@,
                        public_inputs: public_inputs@,
                        public_outputs: Seq::<u8>::empty(),
                        proof: Seq::<u8>::empty(),
                        program_hash: old(self).config_view().program_hash@,
                        timestamp,
                        sequencer_signature: None,
                    })
                    &&& final(self).history_view() == old(self).history_view().push(
                        (res.new_root, None),
                    )
                    &&& exists|ws: Seq<UpdateWitness>|
                        #![auto]
                        spec_chain(res.prev_root@, ws) == Some(res.new_root@)
                            && spec_operations_ok(verifiable_ops@, ws)
                    &&& ops_compatible(old(self).tree_view(), ops@) ==> spec_root_of(
                        final(self).tree_view(),
                    ) == res.new_root@
                },
                Err(_) => true,
            },
    {
        if self.store.transition_index() == u64::MAX {
            return Err(NodeError::IndexOverflow);
        }
        let prev_root = self.store.root();
        let sequence = self.store.transition_index() + 1;
        let witnesses = match self.store.apply_batch(ops) {
            Ok(ws) => ws,
            Err(e) => {
                return Err(NodeError::State(e));
            },
        };
        let new_root = match self.store.commit() {
            Ok(root) => root,
            Err(e) => {
                return Err(NodeError::State(e));
            },
        };
        let input = TransitionInput::new(
            prev_root,
            public_inputs.clone(),
            private_inputs,
            witnesses,
        ).with_operations(verifiable_ops);
        let output = match run_transition(&input) {
            Ok(o) => o,
            Err(e) => {
                return Err(NodeError::Guest(e));
            },
        };
        if !hash_eq(&output.prev_root, &prev_root) || !hash_eq(&output.new_root, &new_root) {
            return Err(NodeError::OutputMismatch);
        }
        let proof_bytes: Vec<u8> = Vec::new();
        let blob = match timestamp {
            Some(ts) => TransitionBlobV1::new(
                self.config.app_id.clone(),
                sequence,
                prev_root,
                new_root,
                public_inputs,
                Vec::new(),
                self.config.program_hash,
            ).with_timestamp(ts),
            None => TransitionBlobV1::new(
                self.config.app_id.clone(),
                sequence,
                prev_root,
                new_root,
                public_inputs,
                Vec::new(),
                self.config.program_hash,
            ),
        };
        self.root_history.push((new_root, None));
        proof {
            assert(blob@.public_outputs =~= Seq::<u8>::empty());
            assert(blob@.proof =~= Seq::<u8>::empty());
            let ws = input.witnesses@;
            assert(spec_chain(prev_root@, ws) == Some(output.new_root@));
        }
        Ok(
            TransitionResult {
                sequence,
                prev_root,
                new_root,
                proof_bytes,
                blob,
                celestia_height: None,
            },
        )
    }

    /// Record the height at which the latest transition's blob landed on
    /// the data-availability layer.
    pub fn note_da_height(&mut self, height: u64)
        requires
            old(self).wf(),
        ensures
            final(self).wf(),
            final(self).history_view() == old(self).history_view().update(
                old(self).history_view().len() - 1,
                (old(self).history_view().last().0, Some(height)),
            ),
            final(self).tree_view() == old(self).tree_view(),
            final(self).index_view() == old(self).index_view(),
    {
        let last = match self.root_history.pop() {
            Some(entry) => entry,
            None => {
                return ;
            },
        };
        self.root_history.push((last.0, Some(height)));
        proof {
            assert(self.root_history@ =~= old(self).root_history@.update(
                old(self).root_history@.len() - 1,
                (old(self).root_history@.last().0, Some(height)),
            ));
        }
    }

    /// The root history: `(sequence, root, height)` triples, sequence 0
    /// being the genesis root.
    pub fn root_history(&self) -> (r: Vec<(u64, Hash32, Option<u64>)>)
        requires
            self.wf(),
            self.history_view().len() <= u64::MAX,
        ensures
            r@.len() == self.history_view().len(),
            forall|i: int|
                0 <= i < r@.len() ==> #[trigger] r@[i] == (
                i as u64,
                self.history_view()[i].0,
                self.history_view()[i].1,
            ),
    {
        let mut out: Vec<(u64, Hash32, Option<u64>)> = Vec::new();
        let mut i: usize = 0;
        while i < self.root_history.len()
            invariant
                i <= self.root_history@.len() <= u64::MAX,
                out@.len() == i,
                forall|j: int|
                    0 <= j < i ==> #[trigger] out@[j] == (
                    j as u64,
                    self.root_history@[j].0,
                    self.root_history@[j].1,
                ),
            decreases self.root_history@.len() - i,
        {
            let entry = self.root_history[i];
            out.push((i as u64, entry.0, entry.1));
            i += 1;
        }
        out
    }
}

} // verus!
