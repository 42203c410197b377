//! Canonical transition blobs: the deterministically encoded artifacts
//! posted to the data-availability layer.
//!
//! The wire format fixes the field order and encodes integers
//! little-endian, variable-length fields with a 64-bit length prefix, and
//! optional fields with a one-byte presence tag.

use vstd::prelude::*;

use crate::bytes::dec_bytes;
use crate::bytes::dec_h32;
use crate::bytes::dec_opt_bytes;
use crate::bytes::dec_opt_u64;
use crate::bytes::dec_u64;
use crate::bytes::dec_u8;
use crate::bytes::enc_bytes;
use crate::bytes::enc_opt_bytes;
use crate::bytes::enc_opt_u64;
use crate::bytes::enc_u64;
use crate::bytes::lemma_dec_bytes_concat;
use crate::bytes::lemma_dec_h32_concat;
use crate::bytes::lemma_dec_opt_bytes_concat;
use crate::bytes::lemma_dec_opt_u64_concat;
use crate::bytes::lemma_dec_u64_concat;
use crate::bytes::lemma_dec_u8_concat;
use crate::bytes::read_bytes;
use crate::bytes::read_h32;
use crate::bytes::read_opt_bytes;
use crate::bytes::read_opt_u64;
use crate::bytes::read_u64;
use crate::bytes::read_u8;
use crate::bytes::write_bytes;
use crate::bytes::write_h32;
use crate::bytes::write_opt_bytes;
use crate::bytes::write_opt_u64;
use crate::bytes::write_u64;
use crate::bytes::write_u8;
use crate::hash::Hash32;
use crate::hash::sha256;
use crate::hash::sha256_of;
use crate::merkle::opt_bytes;

verus! {

/// Current schema version for transition blobs.
pub const SCHEMA_VERSION: u8 = 1;

/// Errors that can occur during blob encoding and decoding.
#[derive(Debug)]
pub enum BlobError {
    /// The bytes are not a well-formed blob.
    Encoding(String),
    /// The blob decoded but carries the wrong schema version.
    InvalidVersion { expected: u8, got: u8 },
    /// A blob hash check failed.
    InvalidHash,
}

/// The mathematical content of a transition blob.
pub struct BlobView {
    pub version: u8,
    pub app_id: Seq<u8>,
    pub sequence: u64,
    pub prev_root: Seq<u8>,
    pub new_root: Seq<u8>,
    pub public_inputs: Seq<u8>,
    pub public_outputs: Seq<u8>,
    pub proof: Seq<u8>,
    pub program_hash: Seq<u8>,
    pub timestamp: Option<u64>,
    pub sequencer_signature: Option<Seq<u8>>,
}

impl BlobView {
    /// Field sizes that any blob held in memory meets: roots and program
    /// hash are 32 bytes, variable fields fit their 64-bit length prefix.
    pub open spec fn wf(self) -> bool {
        &&& self.prev_root.len() == 32
        &&& self.new_root.len() == 32
        &&& self.program_hash.len() == 32
        &&& self.app_id.len() <= u64::MAX
        &&& self.public_inputs.len() <= u64::MAX
        &&& self.public_outputs.len() <= u64::MAX
        &&& self.proof.len() <= u64::MAX
        &&& (self.sequencer_signature matches Some(s) ==> s.len() <= u64::MAX)
    }
}

/// The canonical encoding of a blob.
pub open spec fn spec_encode_blob(v: BlobView) -> Seq<u8> {
    seq![v.version] + enc_bytes(v.app_id) + enc_u64(v.sequence) + v.prev_root + v.new_root
        + enc_bytes(v.public_inputs) + enc_bytes(v.public_outputs) + enc_bytes(v.proof)
        + v.program_hash + enc_opt_u64(v.timestamp) + enc_opt_bytes(v.sequencer_signature)
}

/// The decoding of a blob: the fields in canonical order, or nothing if
/// the bytes do not parse. Trailing bytes are ignored.
pub open spec fn spec_decode_blob(data: Seq<u8>) -> Option<BlobView> {
    match dec_u8(data, 0) {
        None => None,
        Some((version, p1)) => match dec_bytes(data, p1) {
            None => None,
            Some((app_id, p2)) => match dec_u64(data, p2) {
                None => None,
                Some((sequence, p3)) => match dec_h32(data, p3) {
                    None => None,
                    Some((prev_root, p4)) => match dec_h32(data, p4) {
                        None => None,
                        Some((new_root, p5)) => match dec_bytes(data, p5) {
                            None => None,
                            Some((public_inputs, p6)) => match dec_bytes(data, p6) {
                                None => None,
                                Some((public_outputs, p7)) => match dec_bytes(data, p7) {
                                    None => None,
                                    Some((proof, p8)) => match dec_h32(data, p8) {
                                        None => None,
                                        Some((program_hash, p9)) => match dec_opt_u64(data, p9) {
                                            None => None,
                                            Some((timestamp, p10)) => match dec_opt_bytes(
                                                data,
                                                p10,
                                            ) {
                                                None => None,
                                                Some((sequencer_signature, _p11)) => Some(
                                                    BlobView {
                                                        version,
                                                        app_id,
                                                        sequence,
                                                        prev_root,
                                                        new_root,
                                                        public_inputs,
                                                        public_outputs,
                                                        proof,
                                                        program_hash,
                                                        timestamp,
                                                        sequencer_signature,
                                                    },
                                                ),
                                            },
                                        },
                                    },
                                },
                            },
                        },
                    },
                },
            },
        },
    }
}

/// Transition blob, schema version 1.
///
/// Contains all data needed for independent verification of one state
/// transition.
#[derive(Debug, Clone, PartialEq, Eq)]
pub struct TransitionBlobV1 {
    /// Schema version (must be 1).
    pub version: u8,
    /// Application identifier.
    pub app_id: Vec<u8>,
    /// Sequence number / transition index (monotonically increasing).
    pub sequence: u64,
    /// Previous state root.
    pub prev_root: Hash32,
    /// New state root after the transition.
    pub new_root: Hash32,
    /// Public inputs (typed encoding by the application).
    pub public_inputs: Vec<u8>,
    /// Public outputs (events, receipts, and the like).
    pub public_outputs: Vec<u8>,
    /// Proof bytes; empty when the transition was not proven.
    pub proof: Vec<u8>,
    /// Hash of the verifier program image, binding the proof to it.
    pub program_hash: Hash32,
    /// Unix timestamp (optional).
    pub timestamp: Option<u64>,
    /// Sequencer signature over the transition (optional).
    pub sequencer_signature: Option<Vec<u8>>,
}

impl View for TransitionBlobV1 {
    type V = BlobView;

    open spec fn view(&self) -> BlobView {
        BlobView {
            version: self.version,
            app_id: self.app_id@,
            sequence: self.sequence,
            prev_root: self.prev_root@,
            new_root: self.new_root@,
            public_inputs: self.public_inputs@,
            public_outputs: self.public_outputs@,
            proof: self.proof@,
            program_hash: self.program_hash@,
            timestamp: self.timestamp,
            sequencer_signature: opt_bytes(self.sequencer_signature),
        }
    }
}

impl TransitionBlobV1 {
    /// Create a new transition blob with the current schema version, no
    /// outputs, no timestamp and no signature.
    pub fn new(
        app_id: Vec<u8>,
        sequence: u64,
        prev_root: Hash32,
        new_root: Hash32,
        public_inputs: Vec<u8>,
        proof: Vec<u8>,
        program_hash: Hash32,
    ) -> (r: Self)
        ensures
            r@ == (BlobView {
                version: SCHEMA_VERSION,
                app_id: app_id@,
                sequence,
                prev_root: prev_root@,
                new_root: new_root@,
                public_inputs: public_inputs@,
                public_outputs: Seq::<u8>::empty(),
                proof: proof@,
                program_hash: program_hash@,
                timestamp: None,
                sequencer_signature: None,
            }),
    {
        let r = TransitionBlobV1 {
            version: SCHEMA_VERSION,
            app_id,
            sequence,
            prev_root,
            new_root,
            public_inputs,
            public_outputs: Vec::new(),
            proof,
            program_hash,
            timestamp: None,
            sequencer_signature: None,
        };
        proof {
            assert(r.public_outputs@ =~= Seq::<u8>::empty());
        }
        r
    }

    /// Set public outputs.
    pub fn with_public_outputs(self, outputs: Vec<u8>) -> (r: Self)
        ensures
            r@ == (BlobView { public_outputs: outputs@, ..self@ }),
    {
        TransitionBlobV1 { public_outputs: outputs, ..self }
    }

    /// Set the timestamp.
    pub fn with_timestamp(self, ts: u64) -> (r: Self)
        ensures
            r@ == (BlobView { timestamp: Some(ts), ..self@ }),
    {
        TransitionBlobV1 { timestamp: Some(ts), ..self }
    }

    /// Set the sequencer signature.
    pub fn with_signature(self, sig: Vec<u8>) -> (r: Self)
        ensures
            r@ == (BlobView { sequencer_signature: Some(sig@), ..self@ }),
    {
        TransitionBlobV1 { sequencer_signature: Some(sig), ..self }
    }

    /// Encode the blob to its canonical byte form.
    pub fn encode(&self) -> (r: Result<Vec<u8>, BlobError>)
        ensures
            r matches Ok(e) && e@ == spec_encode_blob(self@),
    {
        let mut out: Vec<u8> = Vec::new();
        write_u8(&mut out, self.version);
        write_bytes(&mut out, self.app_id.as_slice());
        write_u64(&mut out, self.sequence);
        write_h32(&mut out, &self.prev_root);
        write_h32(&mut out, &self.new_root);
        write_bytes(&mut out, self.public_inputs.as_slice());
        write_bytes(&mut out, self.public_outputs.as_slice());
        write_bytes(&mut out, self.proof.as_slice());
        write_h32(&mut out, &self.program_hash);
        write_opt_u64(&mut out, &self.timestamp);
        write_opt_bytes(&mut out, &self.sequencer_signature);
        proof {
            assert(out@ =~= spec_encode_blob(self@));
        }
        Ok(out)
    }

    /// Decode a blob from bytes. Fails with `Encoding` on malformed
    /// bytes, and with `InvalidVersion` on a well-formed blob whose
    /// version is not the current schema version.
    pub fn decode(bytes: &[u8]) -> (r: Result<Self, BlobError>)
        ensures
            match r {
                Ok(b) => spec_decode_blob(bytes@) == Some(b@) && b@.version == SCHEMA_VERSION,
                Err(BlobError::InvalidVersion { expected, got }) => {
                    &&& expected == SCHEMA_VERSION
                    &&& got != SCHEMA_VERSION
                    &&& spec_decode_blob(bytes@) matches Some(v) && v.version == got
                },
                Err(BlobError::Encoding(_)) => spec_decode_blob(bytes@) is None,
                Err(BlobError::InvalidHash) => false,
            },
    {
        let fail: &str = "invalid blob encoding";
        let r0 = read_u8(bytes, 0);
        let (version, p1) = match r0 {
            Some(x) => x,
            None => {
                return Err(BlobError::Encoding(fail.to_owned()));
            },
        };
        let (app_id, p2) = match read_bytes(bytes, p1) {
            Some(x) => x,
            None => {
                return Err(BlobError::Encoding(fail.to_owned()));
            },
        };
        let (sequence, p3) = match read_u64(bytes, p2) {
            Some(x) => x,
            None => {
                return Err(BlobError::Encoding(fail.to_owned()));
            },
        };
        let (prev_root, p4) = match read_h32(bytes, p3) {
            Some(x) => x,
            None => {
                return Err(BlobError::Encoding(fail.to_owned()));
            },
        };
        let (new_root, p5) = match read_h32(bytes, p4) {
            Some(x) => x,
            None => {
                return Err(BlobError::Encoding(fail.to_owned()));
            },
        };
        let (public_inputs, p6) = match read_bytes(bytes, p5) {
            Some(x) => x,
            None => {
                return Err(BlobError::Encoding(fail.to_owned()));
            },
        };
        let (public_outputs, p7) = match read_bytes(bytes, p6) {
            Some(x) => x,
            None => {
                return Err(BlobError::Encoding(fail.to_owned()));
            },
        };
        let (proof, p8) = match read_bytes(bytes, p7) {
            Some(x) => x,
            None => {
                return Err(BlobError::Encoding(fail.to_owned()));
            },
        };
        let (program_hash, p9) = match read_h32(bytes, p8) {
            Some(x) => x,
            None => {
                return Err(BlobError::Encoding(fail.to_owned()));
            },
        };
        let (timestamp, p10) = match read_opt_u64(bytes, p9) {
            Some(x) => x,
            None => {
                return Err(BlobError::Encoding(fail.to_owned()));
            },
        };
        let (sequencer_signature, _p11) = match read_opt_bytes(bytes, p10) {
            Some(x) => x,
            None => {
                return Err(BlobError::Encoding(fail.to_owned()));
            },
        };
        let blob = TransitionBlobV1 {
            version,
            app_id,
            sequence,
            prev_root,
            new_root,
            public_inputs,
            public_outputs,
            proof,
            program_hash,
            timestamp,
            sequencer_signature,
        };
        if blob.version != SCHEMA_VERSION {
            return Err(
                BlobError::InvalidVersion { expected: SCHEMA_VERSION, got: blob.version },
            );
        }
        Ok(blob)
    }

    /// Compute the SHA-256 hash of this blob's canonical encoding, for
    /// indexing and signing. The hash is a function of the blob's content
    /// alone.
    pub fn hash(&self) -> (r: Hash32)
        ensures
            r@ == sha256_of(spec_encode_blob(self@)),
    {
        let encoded = match self.encode() {
            Ok(e) => e,
            Err(_) => Vec::new(),
        };
        sha256(encoded.as_slice())
    }

    /// The message a sequencer signs:
    /// `sequence ‖ prev_root ‖ new_root ‖ program_hash ‖ blob_hash`.
    pub fn signing_message(&self) -> (r: Vec<u8>)
        ensures
            r@ == enc_u64(self.sequence) + self.prev_root@ + self.new_root@ + self.program_hash@
                + sha256_of(spec_encode_blob(self@)),
    {
        let mut msg: Vec<u8> = Vec::new();
        write_u64(&mut msg, self.sequence);
        write_h32(&mut msg, &self.prev_root);
        write_h32(&mut msg, &self.new_root);
        write_h32(&mut msg, &self.program_hash);
        let h = self.hash();
        write_h32(&mut msg, &h);
        proof {
            assert(msg@ =~= enc_u64(self.sequence) + self.prev_root@ + self.new_root@
                + self.program_hash@ + sha256_of(spec_encode_blob(self@)));
        }
        msg
    }
}

/// Round trip: decoding the canonical encoding of any blob yields the
/// blob back, whatever its version; the exec decoder then accepts it
/// exactly when the version is the current schema version.
#[verifier::rlimit(100)]
pub proof fn lemma_blob_round_trip(v: BlobView)
    requires
        v.wf(),
    ensures
        spec_decode_blob(spec_encode_blob(v)) == Some(v),
{
    vstd::bytes::lemma_auto_spec_u64_to_from_le_bytes();
    let e1 = seq![v.version];
    let e2 = enc_bytes(v.app_id);
    let e3 = enc_u64(v.sequence);
    let e4 = v.prev_root;
    let e5 = v.new_root;
    let e6 = enc_bytes(v.public_inputs);
    let e7 = enc_bytes(v.public_outputs);
    let e8 = enc_bytes(v.proof);
    let e9 = v.program_hash;
    let e10 = enc_opt_u64(v.timestamp);
    let e11 = enc_opt_bytes(v.sequencer_signature);
    let data = spec_encode_blob(v);
    assert(data =~= Seq::<u8>::empty() + e1 + (e2 + e3 + e4 + e5 + e6 + e7 + e8 + e9 + e10
        + e11));
    lemma_dec_u8_concat(Seq::<u8>::empty(), v.version, e2 + e3 + e4 + e5 + e6 + e7 + e8 + e9 + e10
        + e11);
    assert(data =~= e1 + e2 + (e3 + e4 + e5 + e6 + e7 + e8 + e9 + e10 + e11));
    lemma_dec_bytes_concat(e1, v.app_id, e3 + e4 + e5 + e6 + e7 + e8 + e9 + e10 + e11);
    assert(data =~= (e1 + e2) + e3 + (e4 + e5 + e6 + e7 + e8 + e9 + e10 + e11));
    lemma_dec_u64_concat(e1 + e2, v.sequence, e4 + e5 + e6 + e7 + e8 + e9 + e10 + e11);
    assert(data =~= (e1 + e2 + e3) + e4 + (e5 + e6 + e7 + e8 + e9 + e10 + e11));
    lemma_dec_h32_concat(e1 + e2 + e3, v.prev_root, e5 + e6 + e7 + e8 + e9 + e10 + e11);
    assert(data =~= (e1 + e2 + e3 + e4) + e5 + (e6 + e7 + e8 + e9 + e10 + e11));
    lemma_dec_h32_concat(e1 + e2 + e3 + e4, v.new_root, e6 + e7 + e8 + e9 + e10 + e11);
    assert(data =~= (e1 + e2 + e3 + e4 + e5) + e6 + (e7 + e8 + e9 + e10 + e11));
    lemma_dec_bytes_concat(e1 + e2 + e3 + e4 + e5, v.public_inputs, e7 + e8 + e9 + e10 + e11);
    assert(data =~= (e1 + e2 + e3 + e4 + e5 + e6) + e7 + (e8 + e9 + e10 + e11));
    lemma_dec_bytes_concat(e1 + e2 + e3 + e4 + e5 + e6, v.public_outputs, e8 + e9 + e10 + e11);
    assert(data =~= (e1 + e2 + e3 + e4 + e5 + e6 + e7) + e8 + (e9 + e10 + e11));
    lemma_dec_bytes_concat(e1 + e2 + e3 + e4 + e5 + e6 + e7, v.proof, e9 + e10 + e11);
    assert(data =~= (e1 + e2 + e3 + e4 + e5 + e6 + e7 + e8) + e9 + (e10 + e11));
    lemma_dec_h32_concat(e1 + e2 + e3 + e4 + e5 + e6 + e7 + e8, v.program_hash, e10 + e11);
    assert(data =~= (e1 + e2 + e3 + e4 + e5 + e6 + e7 + e8 + e9) + e10 + e11);
    lemma_dec_opt_u64_concat(e1 + e2 + e3 + e4 + e5 + e6 + e7 + e8 + e9, v.timestamp, e11);
    assert(data =~= (e1 + e2 + e3 + e4 + e5 + e6 + e7 + e8 + e9 + e10) + e11
        + Seq::<u8>::empty());
    lemma_dec_opt_bytes_concat(
        e1 + e2 + e3 + e4 + e5 + e6 + e7 + e8 + e9 + e10,
        v.sequencer_signature,
        Seq::<u8>::empty(),
    );
}

} // verus!
