//! A verifiable state-transition engine over a sparse Merkle commitment.
//!
//! The library keeps an application key-value state under a fixed-depth
//! sparse Merkle trie, emits per-update witnesses, packages transitions as
//! canonical blobs, and checks chains of such blobs for root continuity.

mod accounts;
mod blob;
mod bytes;
mod chain;
mod finance;
mod guest;
mod hash;
mod hex;
mod merkle;
mod namespace;
mod node;
mod sdk;
mod state;
mod transition;

pub use accounts::balance_key;
pub use accounts::get_balance;
pub use accounts::get_nonce;
pub use accounts::increment_nonce;
pub use accounts::nonce_key;
pub use accounts::set_balance;
pub use accounts::transfer;
pub use blob::BlobError;
pub use blob::SCHEMA_VERSION;
pub use blob::TransitionBlobV1;
pub use chain::CelestiaError;
pub use chain::DEFAULT_RPC_URL;
pub use chain::ProverError;
pub use chain::SyncResult;
pub use chain::VerificationResult;
pub use chain::VerifyConfig;
pub use chain::VerifyError;
pub use chain::decode_blobs;
pub use chain::decode_blobs_lenient;
pub use chain::sort_by_sequence;
pub use chain::sync_transitions;
pub use chain::verify_blob;
pub use chain::verify_transitions;
pub use finance::Account;
pub use finance::Transfer;
pub use finance::verify_transfer;
pub use guest::GuestError;
pub use guest::run_transition;
pub use guest::verify_operation;
pub use hash::Hash32;
pub use hash::TREE_DEPTH;
pub use hash::get_bit;
pub use hash::hash_bytes;
pub use hash::hash_key;
pub use hash::hash_leaf;
pub use hash::hash_nodes;
pub use hex::hash_to_hex;
pub use hex::hex_to_hash;
pub use merkle::MerkleError;
pub use merkle::MerkleProof;
pub use merkle::SparseMerkleTree;
pub use merkle::UpdateWitness;
pub use namespace::Namespace;
pub use namespace::NamespaceError;
pub use node::AppNode;
pub use node::AppNodeConfig;
pub use node::NodeError;
pub use node::TransitionResult;
pub use sdk::Context;
pub use sdk::KeyBuilder;
pub use sdk::KeyPrefix;
pub use sdk::SdkError;
pub use sdk::TypedKey;
pub use state::StateError;
pub use state::StateOp;
pub use state::StateStore;
pub use state::TransitionBuilder;
pub use transition::Operation;
pub use transition::OperationBatch;
pub use transition::OperationType;
pub use transition::TransitionInput;
pub use transition::TransitionOutput;
pub use transition::VerifiableOperation;
pub use transition::build_transition_input;
pub use transition::verify_witnesses;
