//! Chain verification: decode transition blobs fetched from the
//! data-availability layer, order them by sequence, and walk the chain
//! checking program identity, root continuity and proof outcomes.
//!
//! Fetching blobs and verifying zero-knowledge proofs happen outside;
//! the decisions all stand here. A caller fetches the raw blobs, has
//! each non-empty proof checked, and hands both to the walk, which is
//! verified for every possible outcome of those calls.

use vstd::prelude::*;

use crate::blob::BlobView;
use crate::blob::TransitionBlobV1;
use crate::blob::spec_decode_blob;
use crate::hash::Hash32;
use crate::hex::hash_to_hex;
use crate::hex::hex_of;
use crate::namespace::Namespace;
use crate::transition::TransitionOutput;

verus! {

/// The default data-availability RPC endpoint (a local bridge node).
pub const DEFAULT_RPC_URL: &'static str = "http://localhost:26658";

/// Errors raised by the data-availability transport. The core only ever
/// receives these from its caller; it never produces them itself.
#[derive(Debug)]
pub enum CelestiaError {
    /// The HTTP transport failed.
    Http(String),
    /// The RPC answered with an error object.
    JsonRpc { code: i64, message: String },
    /// The RPC answer was not of the expected shape.
    InvalidResponse(String),
    /// A requested blob does not exist.
    BlobNotFound,
    /// A namespace was malformed.
    Namespace(String),
}

/// Errors raised by the proving surface. The core never proves or
/// verifies a zero-knowledge proof itself; its caller does, and reports
/// failures with these kinds.
#[derive(Debug)]
pub enum ProverError {
    /// Executing the guest program failed.
    Execution(String),
    /// Generating a proof failed.
    ProofGeneration(String),
    /// Verifying a proof failed.
    Verification(String),
    /// The committed output did not decode.
    OutputDecode(String),
}

/// Verification errors.
#[derive(Debug)]
pub enum VerifyError {
    /// The data-availability transport failed.
    Celestia(CelestiaError),
    /// A fetched blob does not decode as a transition blob.
    BlobDecode(crate::blob::BlobError),
    /// A proof failed to verify, its output contradicted the blob, or
    /// two blobs claimed the same sequence number.
    ProofInvalid { sequence: u64, message: String },
    /// A blob's previous root is not the running root.
    RootChainBroken { sequence: u64, expected: String, actual: String },
    /// A blob was produced by a different program image.
    ProgramHashMismatch { sequence: u64 },
    /// The height range held no blobs.
    NoBlobsFound,
}

/// Result of verifying a height range.
#[derive(Debug)]
pub struct VerificationResult {
    /// Total transitions walked.
    pub total_transitions: u64,
    /// First root of the chain.
    pub first_root: Hash32,
    /// Latest root after all transitions.
    pub latest_root: Hash32,
    /// First sequence number.
    pub first_sequence: u64,
    /// Last sequence number.
    pub last_sequence: u64,
    /// Heights covered, first and last.
    pub height_range: (u64, u64),
    /// Sequences whose blobs carried an empty proof (not verified).
    pub unverified_transitions: Vec<u64>,
}

/// Configuration for verification.
#[derive(Debug, Clone)]
pub struct VerifyConfig {
    /// Data-availability RPC URL.
    pub celestia_rpc: String,
    /// Namespace to verify.
    pub namespace: Namespace,
    /// Expected program hash; the caller's own image hash when absent.
    pub expected_program_hash: Option<Hash32>,
    /// Skip proof verification (only check the root chain).
    pub skip_proof_verification: bool,
    /// Expected first root (optional).
    pub expected_first_root: Option<Hash32>,
}

impl Default for VerifyConfig {
    /// The default configuration: local RPC, the `zkapp` namespace, no
    /// pinned program hash or first root, proofs checked.
    fn default() -> (r: Self)
        ensures
            r.expected_program_hash is None,
            !r.skip_proof_verification,
            r.expected_first_root is None,
    {
        VerifyConfig {
            celestia_rpc: DEFAULT_RPC_URL.to_owned(),
            namespace: Namespace::from_string("zkapp"),
            expected_program_hash: None,
            skip_proof_verification: false,
            expected_first_root: None,
        }
    }
}

/// The blob views of a height-tagged transition list.
pub open spec fn views_of(ts: Seq<(u64, TransitionBlobV1)>) -> Seq<BlobView> {
    ts.map_values(|p: (u64, TransitionBlobV1)| p.1@)
}

/// Decode every fetched blob; any blob that does not decode as a
/// current-version transition blob is fatal.
pub fn decode_blobs(raw: &Vec<(u64, Vec<u8>)>) -> (r: Result<
    Vec<(u64, TransitionBlobV1)>,
    VerifyError,
>)
    ensures
        match r {
            Ok(ts) => {
                &&& ts@.len() == raw@.len()
                &&& forall|i: int|
                    0 <= i < raw@.len() ==> {
                        &&& (#[trigger] ts@[i]).0 == raw@[i].0
                        &&& spec_decode_blob(raw@[i].1@) == Some(ts@[i].1@)
                        &&& ts@[i].1@.version == crate::blob::SCHEMA_VERSION
                    }
            },
            Err(VerifyError::BlobDecode(_)) => exists|i: int|
                0 <= i < raw@.len() && !(#[trigger] spec_decode_blob(raw@[i].1@) matches Some(v)
                    && v.version == crate::blob::SCHEMA_VERSION),
            Err(_) => false,
        },
{
    let mut ts: Vec<(u64, TransitionBlobV1)> = Vec::new();
    let mut i: usize = 0;
    while i < raw.len()
        invariant
            i <= raw@.len(),
            ts@.len() == i,
            forall|j: int|
                0 <= j < i ==> {
                    &&& (#[trigger] ts@[j]).0 == raw@[j].0
                    &&& spec_decode_blob(raw@[j].1@) == Some(ts@[j].1@)
                    &&& ts@[j].1@.version == crate::blob::SCHEMA_VERSION
                },
        decreases raw@.len() - i,
    {
        let blob = match TransitionBlobV1::decode(raw[i].1.as_slice()) {
            Ok(b) => b,
            Err(e) => {
                return Err(VerifyError::BlobDecode(e));
            },
        };
        ts.push((raw[i].0, blob));
        i += 1;
    }
    Ok(ts)
}

/// Height-tagged transitions in ascending sequence order.
pub open spec fn sorted_by_sequence(ts: Seq<(u64, TransitionBlobV1)>) -> bool {
    forall|i: int, j: int| 0 <= i < j < ts.len() ==> ts[i].1.sequence <= ts[j].1.sequence
}

/// Sort height-tagged transitions by ascending sequence number.
pub fn sort_by_sequence(ts: Vec<(u64, TransitionBlobV1)>) -> (r: Vec<(u64, TransitionBlobV1)>)
    ensures
        sorted_by_sequence(r@),
        r@.to_multiset() == ts@.to_multiset(),
{
    broadcast use vstd::seq_lib::group_to_multiset_ensures;

    let mut rest = ts;
    let mut out: Vec<(u64, TransitionBlobV1)> = Vec::new();
    while rest.len() > 0
        invariant
            sorted_by_sequence(out@),
            out@.to_multiset().add(rest@.to_multiset()) == ts@.to_multiset(),
            forall|a: int, b: int|
                0 <= a < out@.len() && 0 <= b < rest@.len() ==> out@[a].1.sequence
                    <= rest@[b].1.sequence,
        decreases rest@.len(),
    {
        let mut min: usize = 0;
        let mut k: usize = 1;
        while k < rest.len()
            invariant
                min < k <= rest@.len() || (k <= rest@.len() && min == 0),
                min < rest@.len(),
                forall|a: int| 0 <= a < k ==> rest@[min as int].1.sequence <= rest@[a].1.sequence,
            decreases rest@.len() - k,
        {
            if rest[k].1.sequence < rest[min].1.sequence {
                min = k;
            }
            k += 1;
        }
        let ghost rest0 = rest@;
        let ghost out0 = out@;
        let x = rest.remove(min);
        out.push(x);
        proof {
            rest0.to_multiset_ensures();
            out0.to_multiset_ensures();
            assert(rest@ == rest0.remove(min as int));
            assert(rest0.remove(min as int).to_multiset() == rest0.to_multiset().remove(
                rest0[min as int],
            ));
            assert(out@ == out0.push(x));
            assert(out0.push(x).to_multiset() == out0.to_multiset().insert(x));
            assert(out@.to_multiset().add(rest@.to_multiset()) =~= out0.to_multiset().add(
                rest0.to_multiset(),
            ));
            assert forall|b: int| 0 <= b < rest@.len() implies x.1.sequence
                <= rest@[b].1.sequence by {
                if b < min {
                    assert(rest@[b] == rest0[b]);
                } else {
                    assert(rest@[b] == rest0[b + 1]);
                }
            }
        }
    }
    out
}

/// The running-root walk over a chain of blobs: each blob's previous
/// root must equal the running root, which its new root then replaces;
/// `None` on the first break of continuity.
pub open spec fn spec_root_walk(cur: Seq<u8>, vs: Seq<BlobView>) -> Option<Seq<u8>>
    decreases vs.len(),
{
    if vs.len() == 0 {
        Some(cur)
    } else if vs[0].prev_root == cur {
        spec_root_walk(vs[0].new_root, vs.drop_first())
    } else {
        None
    }
}

/// Appending a blob to a successful walk extends it exactly when the
/// blob starts from the walk's root.
pub proof fn lemma_root_walk_push(first: Seq<u8>, vs: Seq<BlobView>, x: Seq<u8>, v: BlobView)
    requires
        spec_root_walk(first, vs) == Some(x),
    ensures
        spec_root_walk(first, vs.push(v)) == (if v.prev_root == x {
            Some(v.new_root)
        } else {
            None::<Seq<u8>>
        }),
    decreases vs.len(),
{
    if vs.len() == 0 {
        assert(vs.push(v)[0] == v);
        assert(vs.push(v).drop_first() =~= Seq::<BlobView>::empty());
        assert(spec_root_walk(v.new_root, Seq::<BlobView>::empty()) == Some(v.new_root));
    } else {
        assert(vs.push(v)[0] == vs[0]);
        assert(vs.push(v).drop_first() =~= vs.drop_first().push(v));
        lemma_root_walk_push(vs[0].new_root, vs.drop_first(), x, v);
    }
}

/// Every blob was produced by the expected program image.
pub open spec fn all_hashes_match(vs: Seq<BlobView>, ph: Seq<u8>) -> bool {
    forall|i: int| 0 <= i < vs.len() ==> (#[trigger] vs[i]).program_hash == ph
}

/// The externally obtained proof outcome of one blob is satisfactory:
/// absent (nothing was checked), or a verified output attesting exactly
/// the blob's root pair.
pub open spec fn outcome_ok(t: BlobView, oc: Option<Result<TransitionOutput, String>>) -> bool {
    match oc {
        None => true,
        Some(Ok(o)) => o.prev_root@ == t.prev_root && o.new_root@ == t.new_root,
        Some(Err(_)) => false,
    }
}

/// Every proof outcome is satisfactory.
pub open spec fn outcomes_ok(
    vs: Seq<BlobView>,
    ocs: Seq<Option<Result<TransitionOutput, String>>>,
) -> bool {
    forall|i: int| 0 <= i < vs.len() ==> outcome_ok(#[trigger] vs[i], ocs[i])
}

/// No two adjacent blobs claim the same sequence (under sequence order,
/// no two blobs at all).
pub open spec fn no_duplicate_sequences(vs: Seq<BlobView>) -> bool {
    forall|i: int| 0 <= i < vs.len() - 1 ==> (#[trigger] vs[i]).sequence != vs[i + 1].sequence
}

/// An outcome stands exactly for each blob whose proof was to be
/// checked: every blob with a non-empty proof, unless checking is
/// skipped.
pub open spec fn outcomes_aligned(
    ts: Seq<(u64, TransitionBlobV1)>,
    ocs: Seq<Option<Result<TransitionOutput, String>>>,
    skip: bool,
) -> bool {
    ocs.len() == ts.len() && forall|i: int|
        0 <= i < ts.len() ==> ((#[trigger] ocs[i]) is Some <==> (!skip && ts[i].1.proof@.len()
            > 0))
}

/// The sequences of the blobs that carry no proof, in order.
pub open spec fn unverified_of(vs: Seq<BlobView>) -> Seq<u64>
    decreases vs.len(),
{
    if vs.len() == 0 {
        Seq::empty()
    } else if vs.last().proof.len() == 0 {
        unverified_of(vs.drop_last()).push(vs.last().sequence)
    } else {
        unverified_of(vs.drop_last())
    }
}

/// Check one blob of the walk: program identity, that its sequence is
/// not a repeat of the previous one, root continuity, and the proof
/// outcome. Succeeds exactly when all four hold.
fn check_step(
    expected_program_hash: &Hash32,
    current_root: &Hash32,
    repeated: bool,
    t: &TransitionBlobV1,
    outcome: &Option<Result<TransitionOutput, String>>,
) -> (r: Result<(), VerifyError>)
    ensures
        r is Ok <==> (t@.program_hash == expected_program_hash@ && !repeated && t@.prev_root
            == current_root@ && outcome_ok(t@, *outcome)),
        match r {
            Ok(()) => true,
            Err(VerifyError::ProgramHashMismatch { sequence }) => sequence == t.sequence
                && t@.program_hash != expected_program_hash@,
            Err(VerifyError::ProofInvalid { sequence, message }) => sequence == t.sequence && (
            repeated || !outcome_ok(t@, *outcome)),
            Err(VerifyError::RootChainBroken { sequence, expected, actual }) => {
                &&& sequence == t.sequence
                &&& t@.program_hash == expected_program_hash@
                &&& t@.prev_root != current_root@
                &&& expected@ == hex_of(current_root@)
                &&& actual@ == hex_of(t@.prev_root)
            },
            Err(_) => false,
        },
{
    if !crate::hash::hash_eq(&t.program_hash, expected_program_hash) {
        return Err(VerifyError::ProgramHashMismatch { sequence: t.sequence });
    }
    if repeated {
        return Err(
            VerifyError::ProofInvalid {
                sequence: t.sequence,
                message: "duplicate sequence".to_owned(),
            },
        );
    }
    if !crate::hash::hash_eq(&t.prev_root, current_root) {
        return Err(
            VerifyError::RootChainBroken {
                sequence: t.sequence,
                expected: hash_to_hex(current_root),
                actual: hash_to_hex(&t.prev_root),
            },
        );
    }
    match outcome {
        None => Ok(()),
        Some(Ok(o)) => {
            if !crate::hash::hash_eq(&o.prev_root, &t.prev_root) || !crate::hash::hash_eq(
                &o.new_root,
                &t.new_root,
            ) {
                Err(
                    VerifyError::ProofInvalid {
                        sequence: t.sequence,
                        message: "proof output mismatch".to_owned(),
                    },
                )
            } else {
                Ok(())
            }
        },
        Some(Err(e)) => Err(
            VerifyError::ProofInvalid { sequence: t.sequence, message: e.clone() },
        ),
    }
}

/// Walk a sorted chain of decoded transitions.
///
/// Succeeds exactly when the range is non-empty, every program hash
/// matches, the roots chain without a break from the first root, no two
/// blobs share a sequence, and every checked proof attested its blob's
/// root pair. The first root is the expected one when configured, else
/// the first blob's previous root.
#[verifier::rlimit(100)]
pub fn verify_transitions(
    expected_program_hash: &Hash32,
    skip_proof_verification: bool,
    expected_first_root: &Option<Hash32>,
    transitions: &Vec<(u64, TransitionBlobV1)>,
    outcomes: &Vec<Option<Result<TransitionOutput, String>>>,
) -> (r: Result<VerificationResult, VerifyError>)
    requires
        sorted_by_sequence(transitions@),
        outcomes_aligned(transitions@, outcomes@, skip_proof_verification),
        transitions@.len() <= u64::MAX,
    ensures
        ({
            let vs = views_of(transitions@);
            let first = match *expected_first_root {
                Some(h) => h@,
                None => if vs.len() > 0 {
                    vs[0].prev_root
                } else {
                    Seq::<u8>::empty()
                },
            };
            &&& (r matches Err(VerifyError::NoBlobsFound) <==> vs.len() == 0)
            &&& (r is Ok <==> (vs.len() > 0 && all_hashes_match(vs, expected_program_hash@)
                && spec_root_walk(first, vs) is Some && outcomes_ok(vs, outcomes@)
                && no_duplicate_sequences(vs)))
            &&& (r matches Ok(res) ==> {
                &&& res.total_transitions == vs.len()
                &&& res.first_root@ == first
                &&& spec_root_walk(first, vs) == Some(res.latest_root@)
                &&& res.first_sequence == vs[0].sequence
                &&& res.last_sequence == vs.last().sequence
                &&& res.height_range == (transitions@[0].0, transitions@.last().0)
                &&& res.unverified_transitions@ == unverified_of(vs)
            })
            &&& (r matches Err(VerifyError::ProgramHashMismatch { sequence }) ==> exists|i: int|
                0 <= i < vs.len() && (#[trigger] vs[i]).program_hash != expected_program_hash@
                    && vs[i].sequence == sequence)
            &&& (r matches Err(VerifyError::RootChainBroken { sequence, expected, actual })
                ==> spec_root_walk(first, vs) is None && exists|i: int|
                    0 <= i < vs.len() && (#[trigger] vs[i]).sequence == sequence && actual@
                        == hex_of(vs[i].prev_root) && spec_root_walk(first, vs.take(i)) is Some
                        && expected@ == hex_of(spec_root_walk(first, vs.take(i)).unwrap())
                        && vs[i].prev_root != spec_root_walk(first, vs.take(i)).unwrap())
            &&& (r matches Err(VerifyError::ProofInvalid { sequence, message }) ==> (
            !outcomes_ok(vs, outcomes@) || !no_duplicate_sequences(vs)))
            &&& !(r matches Err(VerifyError::Celestia(_)))
            &&& !(r matches Err(VerifyError::BlobDecode(_)))
        }),
{
    let ghost vs = views_of(transitions@);
    if transitions.len() == 0 {
        return Err(VerifyError::NoBlobsFound);
    }
    let mut current_root: Hash32 = match expected_first_root {
        Some(h) => *h,
        None => transitions[0].1.prev_root,
    };
    let ghost first = current_root@;
    let first_root = current_root;
    let first_sequence = transitions[0].1.sequence;
    let first_height = transitions[0].0;
    let mut last_sequence = first_sequence;
    let mut last_height = first_height;
    let mut unverified: Vec<u64> = Vec::new();
    let mut i: usize = 0;
    proof {
        assert(vs.skip(0) =~= vs);
        assert(vs.take(0) =~= Seq::<BlobView>::empty());
        assert(spec_root_walk(first, vs.take(0)) == Some(current_root@));
    }
    while i < transitions.len()
        invariant
            0 < transitions@.len() <= u64::MAX,
            i <= transitions@.len(),
            vs == views_of(transitions@),
            vs.len() == transitions@.len(),
            forall|j: int| 0 <= j < vs.len() ==> #[trigger] vs[j] == transitions@[j].1@,
            first == (match *expected_first_root {
                Some(h) => h@,
                None => vs[0].prev_root,
            }),
            first_root@ == first,
            first_sequence == vs[0].sequence,
            first_height == transitions@[0].0,
            sorted_by_sequence(transitions@),
            outcomes_aligned(transitions@, outcomes@, skip_proof_verification),
            spec_root_walk(first, vs) == spec_root_walk(current_root@, vs.skip(i as int)),
            spec_root_walk(first, vs.take(i as int)) == Some(current_root@),
            forall|j: int|
                0 <= j < i ==> (#[trigger] vs[j]).program_hash == expected_program_hash@,
            forall|j: int| 0 <= j < i ==> outcome_ok(#[trigger] vs[j], outcomes@[j]),
            forall|j: int| 0 <= j < i - 1 ==> (#[trigger] vs[j]).sequence != vs[j + 1].sequence,
            unverified@ == unverified_of(vs.take(i as int)),
            i > 0 ==> last_sequence == vs[i - 1].sequence,
            i > 0 ==> last_height == transitions@[i - 1].0,
            i == 0 ==> last_sequence == vs[0].sequence && last_height == transitions@[0].0,
        decreases transitions@.len() - i,
    {
        let t = &transitions[i].1;
        let height = transitions[i].0;
        proof {
            assert(vs[i as int] == t@);
        }
        let repeated = i > 0 && t.sequence == last_sequence;
        match check_step(expected_program_hash, &current_root, repeated, t, &outcomes[i]) {
            Ok(()) => {},
            Err(e) => {
                proof {
                    assert(vs.skip(i as int)[0] == vs[i as int]);
                    if vs[i as int].program_hash != expected_program_hash@ {
                        assert(!all_hashes_match(vs, expected_program_hash@));
                    }
                    if repeated {
                        assert(vs[i as int - 1].sequence == vs[i as int].sequence);
                        assert(!no_duplicate_sequences(vs));
                    }
                    if vs[i as int].prev_root != current_root@ {
                        assert(spec_root_walk(current_root@, vs.skip(i as int)) is None);
                        assert(spec_root_walk(first, vs) is None);
                    }
                    if !outcome_ok(vs[i as int], outcomes@[i as int]) {
                        assert(!outcomes_ok(vs, outcomes@));
                    }
                }
                return Err(e);
            },
        }
        if t.proof.len() == 0 {
            unverified.push(t.sequence);
        }
        proof {
            assert(vs.skip(i as int)[0] == vs[i as int]);
            assert(vs.skip(i as int).drop_first() =~= vs.skip(i as int + 1));
            assert(vs.take(i as int + 1).drop_last() =~= vs.take(i as int));
            assert(vs.take(i as int + 1).last() == vs[i as int]);
            lemma_root_walk_push(first, vs.take(i as int), current_root@, vs[i as int]);
            assert(vs.take(i as int).push(vs[i as int]) =~= vs.take(i as int + 1));
        }
        current_root = t.new_root;
        last_sequence = t.sequence;
        last_height = height;
        i += 1;
    }
    proof {
        assert(vs.skip(vs.len() as int) =~= Seq::<BlobView>::empty());
        assert(vs.take(vs.len() as int) =~= vs);
        assert(vs.last() == vs[vs.len() - 1]);
    }
    Ok(
        VerificationResult {
            total_transitions: transitions.len() as u64,
            first_root,
            latest_root: current_root,
            first_sequence,
            last_sequence,
            height_range: (first_height, last_height),
            unverified_transitions: unverified,
        },
    )
}

/// Chain-verifier soundness: over any chain of blobs, the running-root
/// walk succeeds exactly when every blob's previous root equals its
/// predecessor's new root (the first blob starting from the given
/// root), and it then returns the last blob's new root.
pub proof fn lemma_chain_soundness(first: Seq<u8>, vs: Seq<BlobView>)
    ensures
        (spec_root_walk(first, vs) is Some <==> forall|i: int|
            0 <= i < vs.len() ==> (#[trigger] vs[i]).prev_root == (if i == 0 {
                first
            } else {
                vs[i - 1].new_root
            })),
        spec_root_walk(first, vs) is Some ==> spec_root_walk(first, vs) == Some(
            if vs.len() == 0 {
                first
            } else {
                vs.last().new_root
            },
        ),
    decreases vs.len(),
{
    if vs.len() > 0 {
        lemma_chain_soundness(vs[0].new_root, vs.drop_first());
        assert forall|i: int| 0 <= i < vs.drop_first().len() implies #[trigger] vs.drop_first()[i]
            == vs[i + 1] by {}
        if vs[0].prev_root == first {
            if spec_root_walk(first, vs) is Some {
                assert forall|i: int| 0 <= i < vs.len() implies (#[trigger] vs[i]).prev_root == (
                if i == 0 {
                    first
                } else {
                    vs[i - 1].new_root
                }) by {
                    if i > 0 {
                        assert(vs.drop_first()[i - 1].prev_root == (if i - 1 == 0 {
                            vs[0].new_root
                        } else {
                            vs.drop_first()[i - 2].new_root
                        }));
                    }
                }
                if vs.len() > 1 {
                    assert(vs.drop_first().last() == vs.last());
                }
            }
            if forall|i: int|
                0 <= i < vs.len() ==> (#[trigger] vs[i]).prev_root == (if i == 0 {
                    first
                } else {
                    vs[i - 1].new_root
                }) {
                assert forall|i: int|
                    0 <= i < vs.drop_first().len() implies (#[trigger] vs.drop_first()[
                    i]).prev_root == (if i == 0 {
                    vs[0].new_root
                } else {
                    vs.drop_first()[i - 1].new_root
                }) by {
                    assert(vs[i + 1].prev_root == vs[i].new_root);
                    if i > 0 {
                        assert(vs.drop_first()[i - 1] == vs[i]);
                    }
                }
            }
        }
    }
}


/// Result of syncing transitions from the data-availability layer.
#[derive(Debug)]
pub struct SyncResult {
    /// Number of transitions walked.
    pub transitions_verified: u64,
    /// Starting root.
    pub first_root: Hash32,
    /// Final root after all transitions.
    pub latest_root: Hash32,
    /// First height scanned.
    pub first_height: u64,
    /// Last height at which a transition advanced the chain.
    pub last_height: u64,
    /// Non-fatal conditions met along the way.
    pub warnings: Vec<String>,
}

/// The lenient running-root walk used for syncing: a blob from a
/// foreign program image is skipped with the root unchanged; a break of
/// continuity among the remaining blobs is fatal.
pub open spec fn spec_sync_walk(cur: Seq<u8>, vs: Seq<BlobView>, ph: Seq<u8>) -> Option<Seq<u8>>
    decreases vs.len(),
{
    if vs.len() == 0 {
        Some(cur)
    } else if vs[0].program_hash != ph {
        spec_sync_walk(cur, vs.drop_first(), ph)
    } else if vs[0].prev_root == cur {
        spec_sync_walk(vs[0].new_root, vs.drop_first(), ph)
    } else {
        None
    }
}

/// Every proof outcome of a blob from the expected program image is
/// satisfactory.
pub open spec fn sync_outcomes_ok(
    vs: Seq<BlobView>,
    ocs: Seq<Option<Result<TransitionOutput, String>>>,
    ph: Seq<u8>,
) -> bool {
    forall|i: int|
        0 <= i < vs.len() ==> ((#[trigger] vs[i]).program_hash == ph ==> outcome_ok(
            vs[i],
            ocs[i],
        ))
}

/// The height of the last blob from the expected program image, or the
/// fallback when there is none.
pub open spec fn spec_sync_last_height(
    ts: Seq<(u64, TransitionBlobV1)>,
    ph: Seq<u8>,
    dflt: u64,
) -> u64
    decreases ts.len(),
{
    if ts.len() == 0 {
        dflt
    } else if ts.last().1@.program_hash == ph {
        ts.last().0
    } else {
        spec_sync_last_height(ts.drop_last(), ph, dflt)
    }
}

/// How many warnings the sync walk emits: one per skipped blob and one
/// per unproven blob from the expected image.
pub open spec fn spec_sync_warning_count(vs: Seq<BlobView>, ph: Seq<u8>) -> int
    decreases vs.len(),
{
    if vs.len() == 0 {
        0
    } else if vs.last().program_hash != ph {
        spec_sync_warning_count(vs.drop_last(), ph) + 1
    } else if vs.last().proof.len() == 0 {
        spec_sync_warning_count(vs.drop_last(), ph) + 1
    } else {
        spec_sync_warning_count(vs.drop_last(), ph)
    }
}

/// Walk a sorted chain of decoded transitions leniently, as the syncer
/// does: blobs from a foreign program image are skipped with a warning;
/// continuity breaks and failed proofs among the rest are fatal; blobs
/// without a proof advance the chain with a warning.
#[verifier::rlimit(100)]
pub fn sync_transitions(
    expected_program_hash: &Hash32,
    expected_prev_root: &Option<Hash32>,
    transitions: &Vec<(u64, TransitionBlobV1)>,
    outcomes: &Vec<Option<Result<TransitionOutput, String>>>,
) -> (r: Result<SyncResult, VerifyError>)
    requires
        sorted_by_sequence(transitions@),
        outcomes_aligned(transitions@, outcomes@, false),
        transitions@.len() <= u64::MAX,
    ensures
        ({
            let vs = views_of(transitions@);
            let ph = expected_program_hash@;
            let first = match *expected_prev_root {
                Some(h) => h@,
                None => if vs.len() > 0 {
                    vs[0].prev_root
                } else {
                    Seq::<u8>::empty()
                },
            };
            &&& (r matches Err(VerifyError::NoBlobsFound) <==> vs.len() == 0)
            &&& (r is Ok <==> (vs.len() > 0 && spec_sync_walk(first, vs, ph) is Some
                && sync_outcomes_ok(vs, outcomes@, ph)))
            &&& (r matches Ok(res) ==> {
                &&& res.transitions_verified == vs.len()
                &&& res.first_root@ == first
                &&& spec_sync_walk(first, vs, ph) == Some(res.latest_root@)
                &&& res.first_height == transitions@[0].0
                &&& res.last_height == spec_sync_last_height(transitions@, ph, transitions@[0].0)
                &&& res.warnings@.len() == spec_sync_warning_count(vs, ph)
            })
            &&& (r matches Err(VerifyError::RootChainBroken { sequence, expected, actual })
                ==> spec_sync_walk(first, vs, ph) is None)
            &&& (r matches Err(VerifyError::ProofInvalid { sequence, message })
                ==> !sync_outcomes_ok(vs, outcomes@, ph))
            &&& !(r matches Err(VerifyError::Celestia(_)))
            &&& !(r matches Err(VerifyError::BlobDecode(_)))
            &&& !(r matches Err(VerifyError::ProgramHashMismatch { .. }))
        }),
{
    let ghost vs = views_of(transitions@);
    let ghost ph = expected_program_hash@;
    if transitions.len() == 0 {
        return Err(VerifyError::NoBlobsFound);
    }
    let mut current_root: Hash32 = match expected_prev_root {
        Some(h) => *h,
        None => transitions[0].1.prev_root,
    };
    let ghost first = current_root@;
    let first_root = current_root;
    let first_height = transitions[0].0;
    let mut last_height = first_height;
    let mut warnings: Vec<String> = Vec::new();
    let mut i: usize = 0;
    proof {
        assert(vs.skip(0) =~= vs);
        assert(transitions@.take(0) =~= Seq::<(u64, TransitionBlobV1)>::empty());
        assert(vs.take(0) =~= Seq::<BlobView>::empty());
    }
    while i < transitions.len()
        invariant
            0 < transitions@.len() <= u64::MAX,
            i <= transitions@.len(),
            vs == views_of(transitions@),
            ph == expected_program_hash@,
            vs.len() == transitions@.len(),
            forall|j: int| 0 <= j < vs.len() ==> #[trigger] vs[j] == transitions@[j].1@,
            outcomes_aligned(transitions@, outcomes@, false),
            first_height == transitions@[0].0,
            first == (match *expected_prev_root {
                Some(h) => h@,
                None => vs[0].prev_root,
            }),
            first_root@ == first,
            spec_sync_walk(first, vs, ph) == spec_sync_walk(current_root@, vs.skip(i as int), ph),
            forall|j: int|
                0 <= j < i ==> ((#[trigger] vs[j]).program_hash == ph ==> outcome_ok(
                    vs[j],
                    outcomes@[j],
                )),
            last_height == spec_sync_last_height(
                transitions@.take(i as int),
                ph,
                transitions@[0].0,
            ),
            warnings@.len() == spec_sync_warning_count(vs.take(i as int), ph),
        decreases transitions@.len() - i,
    {
        let t = &transitions[i].1;
        let height = transitions[i].0;
        proof {
            assert(vs[i as int] == t@);
            assert(vs.skip(i as int)[0] == vs[i as int]);
            assert(vs.skip(i as int).drop_first() =~= vs.skip(i as int + 1));
            assert(transitions@.take(i as int + 1).drop_last() =~= transitions@.take(i as int));
            assert(transitions@.take(i as int + 1).last() == transitions@[i as int]);
            assert(vs.take(i as int + 1).drop_last() =~= vs.take(i as int));
            assert(vs.take(i as int + 1).last() == vs[i as int]);
        }
        if !crate::hash::hash_eq(&t.program_hash, expected_program_hash) {
            warnings.push("transition from a different program image skipped".to_owned());
            i += 1;
            continue ;
        }
        if !crate::hash::hash_eq(&t.prev_root, &current_root) {
            proof {
                assert(spec_sync_walk(current_root@, vs.skip(i as int), ph) is None);
                assert(spec_sync_walk(first, vs, ph) is None);
            }
            return Err(
                VerifyError::RootChainBroken {
                    sequence: t.sequence,
                    expected: hash_to_hex(&current_root),
                    actual: hash_to_hex(&t.prev_root),
                },
            );
        }
        match &outcomes[i] {
            None => {
                warnings.push("transition carries no proof".to_owned());
            },
            Some(Ok(o)) => {
                if !crate::hash::hash_eq(&o.prev_root, &t.prev_root) || !crate::hash::hash_eq(
                    &o.new_root,
                    &t.new_root,
                ) {
                    proof {
                        assert(!outcome_ok(vs[i as int], outcomes@[i as int]));
                        assert(!sync_outcomes_ok(vs, outcomes@, ph));
                    }
                    return Err(
                        VerifyError::ProofInvalid {
                            sequence: t.sequence,
                            message: "proof output mismatch".to_owned(),
                        },
                    );
                }
            },
            Some(Err(e)) => {
                proof {
                    assert(!outcome_ok(vs[i as int], outcomes@[i as int]));
                    assert(!sync_outcomes_ok(vs, outcomes@, ph));
                }
                return Err(
                    VerifyError::ProofInvalid { sequence: t.sequence, message: e.clone() },
                );
            },
        }
        current_root = t.new_root;
        last_height = height;
        i += 1;
    }
    proof {
        assert(vs.skip(vs.len() as int) =~= Seq::<BlobView>::empty());
        assert(vs.take(vs.len() as int) =~= vs);
        assert(transitions@.take(transitions@.len() as int) =~= transitions@);
    }
    Ok(
        SyncResult {
            transitions_verified: transitions.len() as u64,
            first_root,
            latest_root: current_root,
            first_height,
            last_height,
            warnings,
        },
    )
}

/// Check one blob against the outcome of verifying its proof: nothing to
/// check when the proof is empty; otherwise the proof must have verified
/// and its output must attest exactly the blob's root pair.
pub fn verify_blob(
    blob: &TransitionBlobV1,
    outcome: &Option<Result<TransitionOutput, String>>,
) -> (r: Result<(), VerifyError>)
    requires
        (*outcome is Some) == (blob.proof@.len() > 0),
    ensures
        r is Ok <==> outcome_ok(blob@, *outcome),
        match r {
            Ok(()) => true,
            Err(VerifyError::ProofInvalid { sequence, message }) => sequence == blob.sequence
                && !outcome_ok(blob@, *outcome),
            Err(_) => false,
        },
{
    match outcome {
        None => Ok(()),
        Some(Ok(o)) => {
            if !crate::hash::hash_eq(&o.prev_root, &blob.prev_root) || !crate::hash::hash_eq(
                &o.new_root,
                &blob.new_root,
            ) {
                Err(
                    VerifyError::ProofInvalid {
                        sequence: blob.sequence,
                        message: "output mismatch".to_owned(),
                    },
                )
            } else {
                Ok(())
            }
        },
        Some(Err(e)) => Err(
            VerifyError::ProofInvalid { sequence: blob.sequence, message: e.clone() },
        ),
    }
}

/// Whether raw bytes decode as a current-version transition blob.
pub open spec fn spec_blob_ok(b: Seq<u8>) -> bool {
    spec_decode_blob(b) matches Some(v) && v.version == crate::blob::SCHEMA_VERSION
}

/// The decodable entries of a fetched blob list, in order.
pub open spec fn lenient_views(raw: Seq<(u64, Vec<u8>)>) -> Seq<(u64, BlobView)>
    decreases raw.len(),
{
    if raw.len() == 0 {
        Seq::empty()
    } else if spec_blob_ok(raw.last().1@) {
        lenient_views(raw.drop_last()).push(
            (raw.last().0, spec_decode_blob(raw.last().1@).unwrap()),
        )
    } else {
        lenient_views(raw.drop_last())
    }
}

/// The heights of the entries that do not decode, in order.
pub open spec fn failed_heights(raw: Seq<(u64, Vec<u8>)>) -> Seq<u64>
    decreases raw.len(),
{
    if raw.len() == 0 {
        Seq::empty()
    } else if spec_blob_ok(raw.last().1@) {
        failed_heights(raw.drop_last())
    } else {
        failed_heights(raw.drop_last()).push(raw.last().0)
    }
}

/// Decode fetched blobs leniently, as the syncer does: entries that do
/// not decode as current-version transition blobs are set aside, and
/// their heights reported.
pub fn decode_blobs_lenient(raw: &Vec<(u64, Vec<u8>)>) -> (r: (
    Vec<(u64, TransitionBlobV1)>,
    Vec<u64>,
))
    ensures
        r.0@.len() == lenient_views(raw@).len(),
        forall|i: int|
            0 <= i < r.0@.len() ==> (#[trigger] r.0@[i]).0 == lenient_views(raw@)[i].0
                && r.0@[i].1@ == lenient_views(raw@)[i].1,
        r.1@ == failed_heights(raw@),
{
    let mut out: Vec<(u64, TransitionBlobV1)> = Vec::new();
    let mut failed: Vec<u64> = Vec::new();
    let mut i: usize = 0;
    proof {
        assert(raw@.take(0) =~= Seq::<(u64, Vec<u8>)>::empty());
    }
    while i < raw.len()
        invariant
            i <= raw@.len(),
            out@.len() == lenient_views(raw@.take(i as int)).len(),
            forall|j: int|
                0 <= j < out@.len() ==> (#[trigger] out@[j]).0 == lenient_views(
                    raw@.take(i as int),
                )[j].0 && out@[j].1@ == lenient_views(raw@.take(i as int))[j].1,
            failed@ == failed_heights(raw@.take(i as int)),
        decreases raw@.len() - i,
    {
        proof {
            assert(raw@.take(i as int + 1).drop_last() =~= raw@.take(i as int));
            assert(raw@.take(i as int + 1).last() == raw@[i as int]);
        }
        match TransitionBlobV1::decode(raw[i].1.as_slice()) {
            Ok(blob) => {
                out.push((raw[i].0, blob));
            },
            Err(_) => {
                failed.push(raw[i].0);
            },
        }
        i += 1;
    }
    proof {
        assert(raw@.take(raw@.len() as int) =~= raw@);
    }
    (out, failed)
}

} // verus!
