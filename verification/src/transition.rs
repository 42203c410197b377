//! State transition format: the input a guest verifier consumes, the
//! output it commits, the operation types it checks, and the witness-chain
//! predicate.

use vstd::prelude::*;

use crate::blob::BlobError;
use crate::bytes::dec_bytes;
use crate::bytes::dec_h32;
use crate::bytes::dec_opt_bytes;
use crate::bytes::dec_u32;
use crate::bytes::dec_u64;
use crate::bytes::enc_bytes;
use crate::bytes::enc_opt_bytes;
use crate::bytes::enc_u32;
use crate::bytes::enc_u64;
use crate::bytes::lemma_dec_bytes_concat;
use crate::bytes::lemma_dec_h32_concat;
use crate::bytes::read_bytes;
use crate::bytes::read_h32;
use crate::bytes::read_opt_bytes;
use crate::bytes::read_u32;
use crate::bytes::read_u64;
use crate::bytes::write_bytes;
use crate::bytes::write_h32;
use crate::bytes::write_opt_bytes;
use crate::bytes::write_u32;
use crate::bytes::write_u64;
use crate::merkle::hashes_view;
use crate::merkle::opt_bytes;
use crate::hash::Hash32;
use crate::hash::TREE_DEPTH;
use crate::hash::sha256;
use crate::hash::sha256_of;
use crate::merkle::UpdateWitness;

verus! {

/// Input to the guest state-transition program.
#[derive(Debug, Clone)]
pub struct TransitionInput {
    /// Previous state root (public).
    pub prev_root: Hash32,
    /// Public inputs (application-specific).
    pub public_inputs: Vec<u8>,
    /// Private inputs (application-specific).
    pub private_inputs: Vec<u8>,
    /// Update witnesses for all touched keys, in mutation order.
    pub witnesses: Vec<UpdateWitness>,
    /// Operations with their verification data.
    pub operations: Vec<VerifiableOperation>,
}

impl TransitionInput {
    /// Create a new transition input with no operations.
    pub fn new(
        prev_root: Hash32,
        public_inputs: Vec<u8>,
        private_inputs: Vec<u8>,
        witnesses: Vec<UpdateWitness>,
    ) -> (r: Self)
        ensures
            r.prev_root@ == prev_root@,
            r.public_inputs@ == public_inputs@,
            r.private_inputs@ == private_inputs@,
            r.witnesses == witnesses,
            r.operations@.len() == 0,
    {
        TransitionInput {
            prev_root,
            public_inputs,
            private_inputs,
            witnesses,
            operations: Vec::new(),
        }
    }

    /// Add operations for business-logic verification.
    pub fn with_operations(self, ops: Vec<VerifiableOperation>) -> (r: Self)
        ensures
            r.prev_root@ == self.prev_root@,
            r.public_inputs@ == self.public_inputs@,
            r.private_inputs@ == self.private_inputs@,
            r.witnesses == self.witnesses,
            r.operations == ops,
    {
        TransitionInput { operations: ops, ..self }
    }

    /// The hash binding the public inputs to the previous root:
    /// `H(prev_root ‖ public_inputs)`.
    pub fn public_inputs_hash(&self) -> (r: Hash32)
        ensures
            r@ == sha256_of(self.prev_root@ + self.public_inputs@),
    {
        let mut buf: Vec<u8> = Vec::new();
        buf.extend_from_slice(self.prev_root.as_slice());
        buf.extend_from_slice(self.public_inputs.as_slice());
        proof {
            assert(buf@ =~= self.prev_root@ + self.public_inputs@);
        }
        sha256(buf.as_slice())
    }
}

/// The mathematical content of a transition output.
pub struct OutputView {
    pub prev_root: Seq<u8>,
    pub new_root: Seq<u8>,
    pub public_inputs_hash: Seq<u8>,
    pub public_outputs: Seq<u8>,
}

/// The canonical encoding of a transition output.
pub open spec fn spec_encode_output(v: OutputView) -> Seq<u8> {
    v.prev_root + v.new_root + v.public_inputs_hash + enc_bytes(v.public_outputs)
}

/// The decoding of a transition output. Trailing bytes are ignored.
pub open spec fn spec_decode_output(data: Seq<u8>) -> Option<OutputView> {
    match dec_h32(data, 0) {
        None => None,
        Some((prev_root, p1)) => match dec_h32(data, p1) {
            None => None,
            Some((new_root, p2)) => match dec_h32(data, p2) {
                None => None,
                Some((public_inputs_hash, p3)) => match dec_bytes(data, p3) {
                    None => None,
                    Some((public_outputs, _p4)) => Some(
                        OutputView { prev_root, new_root, public_inputs_hash, public_outputs },
                    ),
                },
            },
        },
    }
}

/// Output committed by the guest state-transition program.
#[derive(Debug, Clone, PartialEq, Eq)]
pub struct TransitionOutput {
    /// Previous state root (for verification).
    pub prev_root: Hash32,
    /// New state root after the transition.
    pub new_root: Hash32,
    /// Hash of the public inputs (for binding).
    pub public_inputs_hash: Hash32,
    /// Public outputs (application-specific).
    pub public_outputs: Vec<u8>,
}

impl View for TransitionOutput {
    type V = OutputView;

    open spec fn view(&self) -> OutputView {
        OutputView {
            prev_root: self.prev_root@,
            new_root: self.new_root@,
            public_inputs_hash: self.public_inputs_hash@,
            public_outputs: self.public_outputs@,
        }
    }
}

impl TransitionOutput {
    /// Create a new transition output.
    pub fn new(
        prev_root: Hash32,
        new_root: Hash32,
        public_inputs_hash: Hash32,
        public_outputs: Vec<u8>,
    ) -> (r: Self)
        ensures
            r@ == (OutputView {
                prev_root: prev_root@,
                new_root: new_root@,
                public_inputs_hash: public_inputs_hash@,
                public_outputs: public_outputs@,
            }),
    {
        TransitionOutput { prev_root, new_root, public_inputs_hash, public_outputs }
    }

    /// Encode to canonical bytes.
    pub fn encode(&self) -> (r: Vec<u8>)
        ensures
            r@ == spec_encode_output(self@),
    {
        let mut out: Vec<u8> = Vec::new();
        write_h32(&mut out, &self.prev_root);
        write_h32(&mut out, &self.new_root);
        write_h32(&mut out, &self.public_inputs_hash);
        write_bytes(&mut out, self.public_outputs.as_slice());
        proof {
            assert(out@ =~= spec_encode_output(self@));
        }
        out
    }

    /// Decode from bytes.
    pub fn decode(data: &[u8]) -> (r: Result<Self, BlobError>)
        ensures
            match r {
                Ok(o) => spec_decode_output(data@) == Some(o@),
                Err(_) => spec_decode_output(data@) is None,
            },
    {
        let fail: &str = "invalid transition output encoding";
        let (prev_root, p1) = match read_h32(data, 0) {
            Some(x) => x,
            None => {
                return Err(BlobError::Encoding(fail.to_owned()));
            },
        };
        let (new_root, p2) = match read_h32(data, p1) {
            Some(x) => x,
            None => {
                return Err(BlobError::Encoding(fail.to_owned()));
            },
        };
        let (public_inputs_hash, p3) = match read_h32(data, p2) {
            Some(x) => x,
            None => {
                return Err(BlobError::Encoding(fail.to_owned()));
            },
        };
        let (public_outputs, _p4) = match read_bytes(data, p3) {
            Some(x) => x,
            None => {
                return Err(BlobError::Encoding(fail.to_owned()));
            },
        };
        Ok(TransitionOutput { prev_root, new_root, public_inputs_hash, public_outputs })
    }
}


/// The canonical encoding of a list of 32-byte hashes, in order.
pub open spec fn enc_hash_list(s: Seq<Hash32>) -> Seq<u8>
    decreases s.len(),
{
    if s.len() == 0 {
        Seq::empty()
    } else {
        s[0]@ + enc_hash_list(s.drop_first())
    }
}

/// The canonical encoding of an update witness: key hash, old and new
/// values, then the length-prefixed sibling list.
pub open spec fn spec_enc_witness(w: UpdateWitness) -> Seq<u8> {
    w.key@ + enc_opt_bytes(opt_bytes(w.old_value)) + enc_opt_bytes(opt_bytes(w.new_value))
        + enc_u64(w.siblings@.len() as u64) + enc_hash_list(w.siblings@)
}

/// The canonical encoding of a list of update witnesses, in order.
pub open spec fn enc_witness_list(s: Seq<UpdateWitness>) -> Seq<u8>
    decreases s.len(),
{
    if s.len() == 0 {
        Seq::empty()
    } else {
        spec_enc_witness(s[0]) + enc_witness_list(s.drop_first())
    }
}

/// Decode `n` raw 32-byte hashes.
pub open spec fn dec_hash_seq(data: Seq<u8>, pos: int, n: nat) -> Option<(Seq<Seq<u8>>, int)>
    decreases n,
{
    if n == 0 {
        Some((Seq::empty(), pos))
    } else {
        match dec_h32(data, pos) {
            None => None,
            Some((h, p)) => match dec_hash_seq(data, p, (n - 1) as nat) {
                None => None,
                Some((rest, p2)) => Some((seq![h] + rest, p2)),
            },
        }
    }
}

/// The decoded form of an update witness: key hash, old value, new
/// value, sibling hashes.
pub type WitnessData = (Seq<u8>, Option<Seq<u8>>, Option<Seq<u8>>, Seq<Seq<u8>>);

/// Decode one update witness.
pub open spec fn dec_witness(data: Seq<u8>, pos: int) -> Option<(WitnessData, int)> {
    match dec_h32(data, pos) {
        None => None,
        Some((key, p1)) => match dec_opt_bytes(data, p1) {
            None => None,
            Some((old_value, p2)) => match dec_opt_bytes(data, p2) {
                None => None,
                Some((new_value, p3)) => match dec_u64(data, p3) {
                    None => None,
                    Some((n, p4)) => match dec_hash_seq(data, p4, n as nat) {
                        None => None,
                        Some((siblings, p5)) => Some(((key, old_value, new_value, siblings), p5)),
                    },
                },
            },
        },
    }
}

/// Decode `n` update witnesses.
pub open spec fn dec_witness_seq(data: Seq<u8>, pos: int, n: nat) -> Option<(Seq<WitnessData>, int)>
    decreases n,
{
    if n == 0 {
        Some((Seq::empty(), pos))
    } else {
        match dec_witness(data, pos) {
            None => None,
            Some((w, p)) => match dec_witness_seq(data, p, (n - 1) as nat) {
                None => None,
                Some((rest, p2)) => Some((seq![w] + rest, p2)),
            },
        }
    }
}

/// The witness carries exactly the decoded data.
pub open spec fn witness_matches(w: UpdateWitness, d: WitnessData) -> bool {
    &&& w.key@ == d.0
    &&& opt_bytes(w.old_value) == d.1
    &&& opt_bytes(w.new_value) == d.2
    &&& hashes_view(w.siblings@) == d.3
}

/// Appending one hash extends the canonical hash-list encoding.
proof fn lemma_enc_hash_list_snoc(s: Seq<Hash32>, i: int)
    requires
        0 <= i < s.len(),
    ensures
        enc_hash_list(s.take(i + 1)) == enc_hash_list(s.take(i)) + s[i]@,
    decreases i,
{
    if i == 0 {
        assert(s.take(1)[0] == s[0]);
        assert(s.take(1).drop_first() =~= s.take(0));
        assert(enc_hash_list(s.take(0)) == Seq::<u8>::empty());
        assert(enc_hash_list(s.take(1)) =~= s[0]@ + Seq::<u8>::empty());
        assert(enc_hash_list(s.take(0)) + s[0]@ =~= s[0]@ + Seq::<u8>::empty());
    } else {
        lemma_enc_hash_list_snoc(s.drop_first(), i - 1);
        assert(s.take(i + 1)[0] == s[0]);
        assert(s.take(i)[0] == s[0]);
        assert(s.take(i + 1).drop_first() =~= s.drop_first().take(i));
        assert(s.take(i).drop_first() =~= s.drop_first().take(i - 1));
        assert(s.drop_first()[i - 1] == s[i]);
        assert(enc_hash_list(s.take(i + 1)) == s[0]@ + enc_hash_list(s.drop_first().take(i)));
        assert(enc_hash_list(s.take(i)) == s[0]@ + enc_hash_list(s.drop_first().take(i - 1)));
        assert(s[0]@ + (enc_hash_list(s.drop_first().take(i - 1)) + s[i]@) =~= (s[0]@
            + enc_hash_list(s.drop_first().take(i - 1))) + s[i]@);
    }
}

/// Appending one witness extends the canonical witness-list encoding.
proof fn lemma_enc_witness_list_snoc(s: Seq<UpdateWitness>, i: int)
    requires
        0 <= i < s.len(),
    ensures
        enc_witness_list(s.take(i + 1)) == enc_witness_list(s.take(i)) + spec_enc_witness(s[i]),
    decreases i,
{
    if i == 0 {
        assert(s.take(1)[0] == s[0]);
        assert(s.take(1).drop_first() =~= s.take(0));
        assert(enc_witness_list(s.take(0)) == Seq::<u8>::empty());
        assert(enc_witness_list(s.take(1)) =~= spec_enc_witness(s[0]) + Seq::<u8>::empty());
        assert(enc_witness_list(s.take(0)) + spec_enc_witness(s[0]) =~= spec_enc_witness(s[0])
            + Seq::<u8>::empty());
    } else {
        lemma_enc_witness_list_snoc(s.drop_first(), i - 1);
        assert(s.take(i + 1)[0] == s[0]);
        assert(s.take(i)[0] == s[0]);
        assert(s.take(i + 1).drop_first() =~= s.drop_first().take(i));
        assert(s.take(i).drop_first() =~= s.drop_first().take(i - 1));
        assert(s.drop_first()[i - 1] == s[i]);
        assert(enc_witness_list(s.take(i + 1)) == spec_enc_witness(s[0]) + enc_witness_list(
            s.drop_first().take(i),
        ));
        assert(enc_witness_list(s.take(i)) == spec_enc_witness(s[0]) + enc_witness_list(
            s.drop_first().take(i - 1),
        ));
        assert(spec_enc_witness(s[0]) + (enc_witness_list(s.drop_first().take(i - 1))
            + spec_enc_witness(s[i])) =~= (spec_enc_witness(s[0]) + enc_witness_list(
            s.drop_first().take(i - 1),
        )) + spec_enc_witness(s[i]));
    }
}

/// Append the canonical encoding of one witness.
fn write_witness(out: &mut Vec<u8>, w: &UpdateWitness)
    ensures
        final(out)@ == old(out)@ + spec_enc_witness(*w),
{
    write_h32(out, &w.key);
    write_opt_bytes(out, &w.old_value);
    write_opt_bytes(out, &w.new_value);
    write_u64(out, w.siblings.len() as u64);
    let ghost header = out@;
    let mut i: usize = 0;
    proof {
        assert(out@ =~= header + enc_hash_list(w.siblings@.take(0)));
    }
    while i < w.siblings.len()
        invariant
            i <= w.siblings@.len(),
            out@ == header + enc_hash_list(w.siblings@.take(i as int)),
        decreases w.siblings@.len() - i,
    {
        let ghost before = out@;
        write_h32(out, &w.siblings[i]);
        proof {
            lemma_enc_hash_list_snoc(w.siblings@, i as int);
        }
        i += 1;
    }
    proof {
        assert(w.siblings@.take(w.siblings@.len() as int) =~= w.siblings@);
        assert(out@ =~= old(out)@ + spec_enc_witness(*w));
    }
}

/// Read one update witness.
fn read_witness(data: &[u8], pos: usize) -> (r: Option<(UpdateWitness, usize)>)
    ensures
        match r {
            Some((w, p)) => dec_witness(data@, pos as int) matches Some(d) && d.1 == p as int
                && witness_matches(w, d.0),
            None => dec_witness(data@, pos as int) is None,
        },
{
    let (key, p1) = match read_h32(data, pos) {
        Some(x) => x,
        None => {
            return None;
        },
    };
    let (old_value, p2) = match read_opt_bytes(data, p1) {
        Some(x) => x,
        None => {
            return None;
        },
    };
    let (new_value, p3) = match read_opt_bytes(data, p2) {
        Some(x) => x,
        None => {
            return None;
        },
    };
    let (n, p4) = match read_u64(data, p3) {
        Some(x) => x,
        None => {
            return None;
        },
    };
    let ghost full = dec_hash_seq(data@, p4 as int, n as nat);
    let mut siblings: Vec<Hash32> = Vec::new();
    let mut p = p4;
    let mut i: u64 = 0;
    proof {
        if full is Some {
            lemma_dec_hash_seq_len(data@, p4 as int, n as nat);
        }
    }
    while i < n
        invariant
            i <= n,
            full == dec_hash_seq(data@, p4 as int, n as nat),
            dec_witness(data@, pos as int) == (match full {
                None => None::<(WitnessData, int)>,
                Some((hs, pe)) => Some(
                    ((key@, opt_bytes(old_value), opt_bytes(new_value), hs), pe),
                ),
            }),
            full is None ==> dec_hash_seq(data@, p as int, (n - i) as nat) is None,
            full is Some ==> {
                &&& full.unwrap().0.len() == n
                &&& dec_hash_seq(data@, p as int, (n - i) as nat) == Some(
                    (full.unwrap().0.skip(i as int), full.unwrap().1),
                )
                &&& siblings@.len() == i
                &&& hashes_view(siblings@) =~= full.unwrap().0.take(i as int)
            },
        decreases n - i,
    {
        let (h, p_next) = match read_h32(data, p) {
            Some(x) => x,
            None => {
                proof {
                    if full is Some {
                        assert(dec_hash_seq(data@, p as int, (n - i) as nat) is Some);
                        assert(dec_h32(data@, p as int) is Some);
                    }
                }
                return None;
            },
        };
        proof {
            if full is Some {
                let hs = full.unwrap().0;
                assert(hs.skip(i as int)[0] == hs[i as int]);
                assert(hs.skip(i as int).drop_first() =~= hs.skip(i as int + 1));
                assert(hashes_view(siblings@.push(h)) =~= hs.take(i as int + 1));
            }
        }
        siblings.push(h);
        p = p_next;
        i = i + 1;
    }
    proof {
        assert(dec_hash_seq(data@, p as int, 0nat) is Some);
        let hs = full.unwrap().0;
        assert(hs.take(hs.len() as int) =~= hs);
    }
    Some((UpdateWitness { key, old_value, new_value, siblings }, p))
}

/// A successful hash-list decode yields exactly the asked-for number of
/// hashes.
proof fn lemma_dec_hash_seq_len(data: Seq<u8>, pos: int, n: nat)
    requires
        dec_hash_seq(data, pos, n) is Some,
    ensures
        dec_hash_seq(data, pos, n).unwrap().0.len() == n,
    decreases n,
{
    if n > 0 {
        let (h, p) = dec_h32(data, pos).unwrap();
        lemma_dec_hash_seq_len(data, p, (n - 1) as nat);
    }
}

/// Round trip: decoding the canonical encoding of a transition output
/// yields the output back.
pub proof fn lemma_output_round_trip(v: OutputView)
    requires
        v.prev_root.len() == 32,
        v.new_root.len() == 32,
        v.public_inputs_hash.len() == 32,
        v.public_outputs.len() <= u64::MAX,
    ensures
        spec_decode_output(spec_encode_output(v)) == Some(v),
{
    let e1 = v.prev_root;
    let e2 = v.new_root;
    let e3 = v.public_inputs_hash;
    let e4 = enc_bytes(v.public_outputs);
    let data = spec_encode_output(v);
    assert(data =~= Seq::<u8>::empty() + e1 + (e2 + e3 + e4));
    lemma_dec_h32_concat(Seq::<u8>::empty(), v.prev_root, e2 + e3 + e4);
    assert(data =~= e1 + e2 + (e3 + e4));
    lemma_dec_h32_concat(e1, v.new_root, e3 + e4);
    assert(data =~= (e1 + e2) + e3 + e4);
    lemma_dec_h32_concat(e1 + e2, v.public_inputs_hash, e4);
    assert(data =~= (e1 + e2 + e3) + e4 + Seq::<u8>::empty());
    lemma_dec_bytes_concat(e1 + e2 + e3, v.public_outputs, Seq::<u8>::empty());
}


/// The decoded form of a transition input.
pub type InputData = (Seq<u8>, Seq<u8>, Seq<u8>, Seq<WitnessData>, Seq<VopData>);

/// The canonical encoding of a transition input: previous root, public
/// and private inputs, then the length-prefixed witness and operation
/// lists.
pub open spec fn spec_encode_input(inp: TransitionInput) -> Seq<u8> {
    inp.prev_root@ + enc_bytes(inp.public_inputs@) + enc_bytes(inp.private_inputs@) + enc_u64(
        inp.witnesses@.len() as u64,
    ) + enc_witness_list(inp.witnesses@) + enc_u64(inp.operations@.len() as u64) + enc_vop_list(
        inp.operations@,
    )
}

/// Decode a transition input. Trailing bytes are ignored.
pub open spec fn spec_decode_input(data: Seq<u8>) -> Option<InputData> {
    match dec_h32(data, 0) {
        None => None,
        Some((prev_root, p1)) => match dec_bytes(data, p1) {
            None => None,
            Some((public_inputs, p2)) => match dec_bytes(data, p2) {
                None => None,
                Some((private_inputs, p3)) => match dec_u64(data, p3) {
                    None => None,
                    Some((nw, p4)) => match dec_witness_seq(data, p4, nw as nat) {
                        None => None,
                        Some((witnesses, p5)) => match dec_u64(data, p5) {
                            None => None,
                            Some((no, p6)) => match dec_vop_seq(data, p6, no as nat) {
                                None => None,
                                Some((operations, _p7)) => Some(
                                    (prev_root, public_inputs, private_inputs, witnesses,
                                    operations),
                                ),
                            },
                        },
                    },
                },
            },
        },
    }
}

/// A successful witness-list decode yields exactly the asked-for number
/// of witnesses.
proof fn lemma_dec_witness_seq_len(data: Seq<u8>, pos: int, n: nat)
    requires
        dec_witness_seq(data, pos, n) is Some,
    ensures
        dec_witness_seq(data, pos, n).unwrap().0.len() == n,
    decreases n,
{
    if n > 0 {
        let (w, p) = dec_witness(data, pos).unwrap();
        lemma_dec_witness_seq_len(data, p, (n - 1) as nat);
    }
}

/// A successful operation-list decode yields exactly the asked-for
/// number of operations.
proof fn lemma_dec_vop_seq_len(data: Seq<u8>, pos: int, n: nat)
    requires
        dec_vop_seq(data, pos, n) is Some,
    ensures
        dec_vop_seq(data, pos, n).unwrap().0.len() == n,
    decreases n,
{
    if n > 0 {
        let (v, p) = dec_vop(data, pos).unwrap();
        lemma_dec_vop_seq_len(data, p, (n - 1) as nat);
    }
}

impl TransitionInput {
    /// Encode to canonical bytes, for feeding the guest program.
    pub fn encode(&self) -> (r: Vec<u8>)
        ensures
            r@ == spec_encode_input(*self),
    {
        let mut out: Vec<u8> = Vec::new();
        write_h32(&mut out, &self.prev_root);
        write_bytes(&mut out, self.public_inputs.as_slice());
        write_bytes(&mut out, self.private_inputs.as_slice());
        write_u64(&mut out, self.witnesses.len() as u64);
        let ghost header = out@;
        let mut i: usize = 0;
        proof {
            assert(out@ =~= header + enc_witness_list(self.witnesses@.take(0)));
        }
        while i < self.witnesses.len()
            invariant
                i <= self.witnesses@.len(),
                out@ == header + enc_witness_list(self.witnesses@.take(i as int)),
            decreases self.witnesses@.len() - i,
        {
            write_witness(&mut out, &self.witnesses[i]);
            proof {
                lemma_enc_witness_list_snoc(self.witnesses@, i as int);
            }
            i += 1;
        }
        proof {
            assert(self.witnesses@.take(self.witnesses@.len() as int) =~= self.witnesses@);
        }
        write_u64(&mut out, self.operations.len() as u64);
        let ghost header2 = out@;
        let mut j: usize = 0;
        proof {
            assert(out@ =~= header2 + enc_vop_list(self.operations@.take(0)));
        }
        while j < self.operations.len()
            invariant
                j <= self.operations@.len(),
                out@ == header2 + enc_vop_list(self.operations@.take(j as int)),
            decreases self.operations@.len() - j,
        {
            write_vop(&mut out, &self.operations[j]);
            proof {
                lemma_enc_vop_list_snoc(self.operations@, j as int);
            }
            j += 1;
        }
        proof {
            assert(self.operations@.take(self.operations@.len() as int) =~= self.operations@);
            assert(out@ =~= spec_encode_input(*self));
        }
        out
    }

    /// Decode from bytes. Fails on malformed bytes, and on a witness
    /// index that does not fit the machine.
    pub fn decode(data: &[u8]) -> (r: Result<Self, BlobError>)
        ensures
            match r {
                Ok(inp) => spec_decode_input(data@) matches Some(t) && {
                    &&& inp.prev_root@ == t.0
                    &&& inp.public_inputs@ == t.1
                    &&& inp.private_inputs@ == t.2
                    &&& inp.witnesses@.len() == t.3.len()
                    &&& forall|k: int|
                        0 <= k < t.3.len() ==> witness_matches(
                            #[trigger] inp.witnesses@[k],
                            t.3[k],
                        )
                    &&& inp.operations@.len() == t.4.len()
                    &&& forall|k: int|
                        0 <= k < t.4.len() ==> vop_matches(#[trigger] inp.operations@[k], t.4[k])
                },
                Err(_) => spec_decode_input(data@) is None || (spec_decode_input(
                    data@,
                ) matches Some(t) && exists|k: int|
                    0 <= k < t.4.len() && (#[trigger] t.4[k]).4 > usize::MAX),
            },
    {
        let fail: &str = "invalid transition input encoding";
        let (prev_root, p1) = match read_h32(data, 0) {
            Some(x) => x,
            None => {
                return Err(BlobError::Encoding(fail.to_owned()));
            },
        };
        let (public_inputs, p2) = match read_bytes(data, p1) {
            Some(x) => x,
            None => {
                return Err(BlobError::Encoding(fail.to_owned()));
            },
        };
        let (private_inputs, p3) = match read_bytes(data, p2) {
            Some(x) => x,
            None => {
                return Err(BlobError::Encoding(fail.to_owned()));
            },
        };
        let (nw, p4) = match read_u64(data, p3) {
            Some(x) => x,
            None => {
                return Err(BlobError::Encoding(fail.to_owned()));
            },
        };
        let ghost fullw = dec_witness_seq(data@, p4 as int, nw as nat);
        let mut witnesses: Vec<UpdateWitness> = Vec::new();
        let mut pos = p4;
        let mut i: u64 = 0;
        proof {
            if fullw is Some {
                lemma_dec_witness_seq_len(data@, p4 as int, nw as nat);
            }
        }
        while i < nw
            invariant
                i <= nw,
                fullw == dec_witness_seq(data@, p4 as int, nw as nat),
                dec_h32(data@, 0) == Some((prev_root@, p1 as int)),
                dec_bytes(data@, p1 as int) == Some((public_inputs@, p2 as int)),
                dec_bytes(data@, p2 as int) == Some((private_inputs@, p3 as int)),
                dec_u64(data@, p3 as int) == Some((nw, p4 as int)),
                fullw is None ==> dec_witness_seq(data@, pos as int, (nw - i) as nat) is None,
                fullw is Some ==> {
                    &&& fullw.unwrap().0.len() == nw
                    &&& dec_witness_seq(data@, pos as int, (nw - i) as nat) == Some(
                        (fullw.unwrap().0.skip(i as int), fullw.unwrap().1),
                    )
                    &&& witnesses@.len() == i
                    &&& forall|k: int|
                        0 <= k < i ==> witness_matches(
                            #[trigger] witnesses@[k],
                            fullw.unwrap().0[k],
                        )
                },
            decreases nw - i,
        {
            let (w, p_next) = match read_witness(data, pos) {
                Some(x) => x,
                None => {
                    proof {
                        if fullw is Some {
                            assert(dec_witness_seq(data@, pos as int, (nw - i) as nat) is Some);
                            assert(dec_witness(data@, pos as int) is Some);
                        }
                    }
                    return Err(BlobError::Encoding(fail.to_owned()));
                },
            };
            proof {
                if fullw is Some {
                    let ws = fullw.unwrap().0;
                    assert(ws.skip(i as int)[0] == ws[i as int]);
                    assert(ws.skip(i as int).drop_first() =~= ws.skip(i as int + 1));
                }
            }
            witnesses.push(w);
            pos = p_next;
            i = i + 1;
        }
        proof {
            assert(dec_witness_seq(data@, pos as int, 0nat) is Some);
        }
        let (no, p6) = match read_u64(data, pos) {
            Some(x) => x,
            None => {
                return Err(BlobError::Encoding(fail.to_owned()));
            },
        };
        let ghost wsdata = fullw.unwrap().0;
        let ghost p5 = pos as int;
        let ghost fullo = dec_vop_seq(data@, p6 as int, no as nat);
        let mut operations: Vec<VerifiableOperation> = Vec::new();
        let mut pos2 = p6;
        let mut j: u64 = 0;
        proof {
            if fullo is Some {
                lemma_dec_vop_seq_len(data@, p6 as int, no as nat);
            }
        }
        while j < no
            invariant
                j <= no,
                fullw == dec_witness_seq(data@, p4 as int, nw as nat),
                fullo == dec_vop_seq(data@, p6 as int, no as nat),
                dec_h32(data@, 0) == Some((prev_root@, p1 as int)),
                dec_bytes(data@, p1 as int) == Some((public_inputs@, p2 as int)),
                dec_bytes(data@, p2 as int) == Some((private_inputs@, p3 as int)),
                dec_u64(data@, p3 as int) == Some((nw, p4 as int)),
                fullw == Some((wsdata, p5)),
                dec_u64(data@, p5) == Some((no, p6 as int)),
                witnesses@.len() == wsdata.len(),
                forall|k: int|
                    0 <= k < wsdata.len() ==> witness_matches(
                        #[trigger] witnesses@[k],
                        wsdata[k],
                    ),
                fullo is None ==> dec_vop_seq(data@, pos2 as int, (no - j) as nat) is None,
                fullo is Some ==> {
                    &&& fullo.unwrap().0.len() == no
                    &&& dec_vop_seq(data@, pos2 as int, (no - j) as nat) == Some(
                        (fullo.unwrap().0.skip(j as int), fullo.unwrap().1),
                    )
                    &&& operations@.len() == j
                    &&& forall|k: int|
                        0 <= k < j ==> vop_matches(
                            #[trigger] operations@[k],
                            fullo.unwrap().0[k],
                        )
                },
            decreases no - j,
        {
            let (op, p_next) = match read_vop(data, pos2) {
                Some(x) => x,
                None => {
                    proof {
                        if fullo is None {
                            assert(spec_decode_input(data@) is None);
                        }
                        if fullo is Some {
                            assert(dec_vop_seq(data@, pos2 as int, (no - j) as nat) is Some);
                            assert(dec_vop(data@, pos2 as int) is Some);
                            let os = fullo.unwrap().0;
                            assert(os.skip(j as int)[0] == os[j as int]);
                            assert(dec_vop(data@, pos2 as int).unwrap().0 == os[j as int]);
                            assert(os[j as int].4 > usize::MAX);
                            assert(spec_decode_input(data@) == Some(
                                (prev_root@, public_inputs@, private_inputs@, wsdata, os),
                            ));
                            let t_full = spec_decode_input(data@).unwrap();
                            assert(t_full.4[j as int] == os[j as int]);
                            assert(exists|k: int|
                                0 <= k < t_full.4.len() && (#[trigger] t_full.4[k]).4
                                    > usize::MAX);
                        }
                    }
                    return Err(BlobError::Encoding(fail.to_owned()));
                },
            };
            proof {
                if fullo is Some {
                    let os = fullo.unwrap().0;
                    assert(os.skip(j as int)[0] == os[j as int]);
                    assert(os.skip(j as int).drop_first() =~= os.skip(j as int + 1));
                }
            }
            operations.push(op);
            pos2 = p_next;
            j = j + 1;
        }
        proof {
            assert(dec_vop_seq(data@, pos2 as int, 0nat) is Some);
        }
        Ok(TransitionInput { prev_root, public_inputs, private_inputs, witnesses, operations })
    }
}

/// Types of operations that can be verified by the guest.
#[derive(Debug, Clone, PartialEq, Eq)]
pub enum OperationType {
    /// Set a value (no constraints).
    SetValue,
    /// Create an account with an initial balance.
    CreateAccount { initial_balance: u64 },
    /// Transfer funds between accounts.
    Transfer { from: Vec<u8>, to: Vec<u8>, amount: u64 },
    /// Mint new tokens.
    Mint { amount: u64 },
    /// Burn tokens.
    Burn { amount: u64 },
}

/// A verifiable operation: the operation tag together with the claimed
/// slot contents and the index of the witness it binds to.
#[derive(Debug, Clone)]
pub struct VerifiableOperation {
    /// Operation type tag.
    pub op_type: OperationType,
    /// The key being operated on.
    pub key: Vec<u8>,
    /// Old value (as claimed; checked against witnesses).
    pub old_value: Option<Vec<u8>>,
    /// New value (as claimed; checked against witnesses).
    pub new_value: Option<Vec<u8>>,
    /// Witness index into the transition input's witness vector.
    pub witness_index: usize,
}


/// The decoded form of an operation tag.
pub enum OpTypeData {
    SetValue,
    CreateAccount { initial_balance: u64 },
    Transfer { from: Seq<u8>, to: Seq<u8>, amount: u64 },
    Mint { amount: u64 },
    Burn { amount: u64 },
}

/// The decoded form of an operation tag that an exec tag denotes.
pub open spec fn op_type_data(t: OperationType) -> OpTypeData {
    match t {
        OperationType::SetValue => OpTypeData::SetValue,
        OperationType::CreateAccount { initial_balance } => OpTypeData::CreateAccount {
            initial_balance,
        },
        OperationType::Transfer { from, to, amount } => OpTypeData::Transfer {
            from: from@,
            to: to@,
            amount,
        },
        OperationType::Mint { amount } => OpTypeData::Mint { amount },
        OperationType::Burn { amount } => OpTypeData::Burn { amount },
    }
}

/// The canonical encoding of an operation tag: a 32-bit variant index,
/// then the variant's fields.
pub open spec fn spec_enc_op_type(t: OperationType) -> Seq<u8> {
    match t {
        OperationType::SetValue => enc_u32(0),
        OperationType::CreateAccount { initial_balance } => enc_u32(1) + enc_u64(initial_balance),
        OperationType::Transfer { from, to, amount } => enc_u32(2) + enc_bytes(from@) + enc_bytes(
            to@,
        ) + enc_u64(amount),
        OperationType::Mint { amount } => enc_u32(3) + enc_u64(amount),
        OperationType::Burn { amount } => enc_u32(4) + enc_u64(amount),
    }
}

/// Decode one operation tag.
pub open spec fn dec_op_type(data: Seq<u8>, pos: int) -> Option<(OpTypeData, int)> {
    match dec_u32(data, pos) {
        None => None,
        Some((tag, p)) => if tag == 0 {
            Some((OpTypeData::SetValue, p))
        } else if tag == 1 {
            match dec_u64(data, p) {
                None => None,
                Some((b, p2)) => Some((OpTypeData::CreateAccount { initial_balance: b }, p2)),
            }
        } else if tag == 2 {
            match dec_bytes(data, p) {
                None => None,
                Some((from, p2)) => match dec_bytes(data, p2) {
                    None => None,
                    Some((to, p3)) => match dec_u64(data, p3) {
                        None => None,
                        Some((amount, p4)) => Some((OpTypeData::Transfer { from, to, amount }, p4)),
                    },
                },
            }
        } else if tag == 3 {
            match dec_u64(data, p) {
                None => None,
                Some((amount, p2)) => Some((OpTypeData::Mint { amount }, p2)),
            }
        } else if tag == 4 {
            match dec_u64(data, p) {
                None => None,
                Some((amount, p2)) => Some((OpTypeData::Burn { amount }, p2)),
            }
        } else {
            None
        },
    }
}

/// The decoded form of a verifiable operation.
pub type VopData = (OpTypeData, Seq<u8>, Option<Seq<u8>>, Option<Seq<u8>>, u64);

/// The canonical encoding of a verifiable operation.
pub open spec fn spec_enc_vop(op: VerifiableOperation) -> Seq<u8> {
    spec_enc_op_type(op.op_type) + enc_bytes(op.key@) + enc_opt_bytes(opt_bytes(op.old_value))
        + enc_opt_bytes(opt_bytes(op.new_value)) + enc_u64(op.witness_index as u64)
}

/// The canonical encoding of a list of verifiable operations, in order.
pub open spec fn enc_vop_list(s: Seq<VerifiableOperation>) -> Seq<u8>
    decreases s.len(),
{
    if s.len() == 0 {
        Seq::empty()
    } else {
        spec_enc_vop(s[0]) + enc_vop_list(s.drop_first())
    }
}

/// Decode one verifiable operation.
pub open spec fn dec_vop(data: Seq<u8>, pos: int) -> Option<(VopData, int)> {
    match dec_op_type(data, pos) {
        None => None,
        Some((t, p1)) => match dec_bytes(data, p1) {
            None => None,
            Some((key, p2)) => match dec_opt_bytes(data, p2) {
                None => None,
                Some((old_value, p3)) => match dec_opt_bytes(data, p3) {
                    None => None,
                    Some((new_value, p4)) => match dec_u64(data, p4) {
                        None => None,
                        Some((wi, p5)) => Some(((t, key, old_value, new_value, wi), p5)),
                    },
                },
            },
        },
    }
}

/// Decode `n` verifiable operations.
pub open spec fn dec_vop_seq(data: Seq<u8>, pos: int, n: nat) -> Option<(Seq<VopData>, int)>
    decreases n,
{
    if n == 0 {
        Some((Seq::empty(), pos))
    } else {
        match dec_vop(data, pos) {
            None => None,
            Some((v, p)) => match dec_vop_seq(data, p, (n - 1) as nat) {
                None => None,
                Some((rest, p2)) => Some((seq![v] + rest, p2)),
            },
        }
    }
}

/// The operation carries exactly the decoded data; the index must also
/// fit a `usize`.
pub open spec fn vop_matches(op: VerifiableOperation, d: VopData) -> bool {
    &&& op_type_data(op.op_type) == d.0
    &&& op.key@ == d.1
    &&& opt_bytes(op.old_value) == d.2
    &&& opt_bytes(op.new_value) == d.3
    &&& op.witness_index == d.4
}

/// Appending one operation extends the canonical operation-list
/// encoding.
proof fn lemma_enc_vop_list_snoc(s: Seq<VerifiableOperation>, i: int)
    requires
        0 <= i < s.len(),
    ensures
        enc_vop_list(s.take(i + 1)) == enc_vop_list(s.take(i)) + spec_enc_vop(s[i]),
    decreases i,
{
    if i == 0 {
        assert(s.take(1)[0] == s[0]);
        assert(s.take(1).drop_first() =~= s.take(0));
        assert(enc_vop_list(s.take(0)) == Seq::<u8>::empty());
        assert(enc_vop_list(s.take(1)) =~= spec_enc_vop(s[0]) + Seq::<u8>::empty());
        assert(enc_vop_list(s.take(0)) + spec_enc_vop(s[0]) =~= spec_enc_vop(s[0])
            + Seq::<u8>::empty());
    } else {
        lemma_enc_vop_list_snoc(s.drop_first(), i - 1);
        assert(s.take(i + 1)[0] == s[0]);
        assert(s.take(i)[0] == s[0]);
        assert(s.take(i + 1).drop_first() =~= s.drop_first().take(i));
        assert(s.take(i).drop_first() =~= s.drop_first().take(i - 1));
        assert(s.drop_first()[i - 1] == s[i]);
        assert(enc_vop_list(s.take(i + 1)) == spec_enc_vop(s[0]) + enc_vop_list(
            s.drop_first().take(i),
        ));
        assert(enc_vop_list(s.take(i)) == spec_enc_vop(s[0]) + enc_vop_list(
            s.drop_first().take(i - 1),
        ));
        assert(spec_enc_vop(s[0]) + (enc_vop_list(s.drop_first().take(i - 1)) + spec_enc_vop(
            s[i],
        )) =~= (spec_enc_vop(s[0]) + enc_vop_list(s.drop_first().take(i - 1))) + spec_enc_vop(
            s[i],
        ));
    }
}

/// Append the canonical encoding of one verifiable operation.
fn write_vop(out: &mut Vec<u8>, op: &VerifiableOperation)
    ensures
        final(out)@ == old(out)@ + spec_enc_vop(*op),
{
    match &op.op_type {
        OperationType::SetValue => {
            write_u32(out, 0);
        },
        OperationType::CreateAccount { initial_balance } => {
            write_u32(out, 1);
            write_u64(out, *initial_balance);
        },
        OperationType::Transfer { from, to, amount } => {
            write_u32(out, 2);
            write_bytes(out, from.as_slice());
            write_bytes(out, to.as_slice());
            write_u64(out, *amount);
        },
        OperationType::Mint { amount } => {
            write_u32(out, 3);
            write_u64(out, *amount);
        },
        OperationType::Burn { amount } => {
            write_u32(out, 4);
            write_u64(out, *amount);
        },
    }
    write_bytes(out, op.key.as_slice());
    write_opt_bytes(out, &op.old_value);
    write_opt_bytes(out, &op.new_value);
    write_u64(out, op.witness_index as u64);
    proof {
        assert(out@ =~= old(out)@ + spec_enc_vop(*op));
    }
}

/// Read one verifiable operation. Fails on an unknown tag, and on an
/// index that does not fit the machine.
fn read_vop(data: &[u8], pos: usize) -> (r: Option<(VerifiableOperation, usize)>)
    ensures
        match r {
            Some((op, p)) => dec_vop(data@, pos as int) matches Some(d) && d.1 == p as int
                && vop_matches(op, d.0),
            None => dec_vop(data@, pos as int) is None || (dec_vop(
                data@,
                pos as int,
            ) matches Some(d) && d.0.4 > usize::MAX),
        },
{
    let (tag, p0) = match read_u32(data, pos) {
        Some(x) => x,
        None => {
            return None;
        },
    };
    let (op_type, p1) = match tag {
        0 => (OperationType::SetValue, p0),
        1 => {
            let (b, p) = match read_u64(data, p0) {
                Some(x) => x,
                None => {
                    return None;
                },
            };
            (OperationType::CreateAccount { initial_balance: b }, p)
        },
        2 => {
            let (from, pa) = match read_bytes(data, p0) {
                Some(x) => x,
                None => {
                    return None;
                },
            };
            let (to, pb) = match read_bytes(data, pa) {
                Some(x) => x,
                None => {
                    return None;
                },
            };
            let (amount, pc) = match read_u64(data, pb) {
                Some(x) => x,
                None => {
                    return None;
                },
            };
            (OperationType::Transfer { from, to, amount }, pc)
        },
        3 => {
            let (amount, p) = match read_u64(data, p0) {
                Some(x) => x,
                None => {
                    return None;
                },
            };
            (OperationType::Mint { amount }, p)
        },
        4 => {
            let (amount, p) = match read_u64(data, p0) {
                Some(x) => x,
                None => {
                    return None;
                },
            };
            (OperationType::Burn { amount }, p)
        },
        _ => {
            return None;
        },
    };
    let (key, p2) = match read_bytes(data, p1) {
        Some(x) => x,
        None => {
            return None;
        },
    };
    let (old_value, p3) = match read_opt_bytes(data, p2) {
        Some(x) => x,
        None => {
            return None;
        },
    };
    let (new_value, p4) = match read_opt_bytes(data, p3) {
        Some(x) => x,
        None => {
            return None;
        },
    };
    let (wi, p5) = match read_u64(data, p4) {
        Some(x) => x,
        None => {
            return None;
        },
    };
    if wi > usize::MAX as u64 {
        return None;
    }
    Some(
        (
            VerifiableOperation {
                op_type,
                key,
                old_value,
                new_value,
                witness_index: wi as usize,
            },
            p5,
        ),
    )
}

/// A single state operation to be applied.
#[derive(Debug, Clone)]
pub enum Operation {
    /// Set a key to a value.
    SetValue { key: Vec<u8>, value: Vec<u8> },
    /// Delete a key.
    Delete { key: Vec<u8> },
}

impl Operation {
    /// Create a set operation.
    pub fn set(key: Vec<u8>, value: Vec<u8>) -> (r: Self)
        ensures
            r matches Operation::SetValue { key: k, value: v } && k@ == key@ && v@ == value@,
    {
        Operation::SetValue { key, value }
    }

    /// Create a delete operation.
    pub fn delete(key: Vec<u8>) -> (r: Self)
        ensures
            r matches Operation::Delete { key: k } && k@ == key@,
    {
        Operation::Delete { key }
    }

    /// Get the key this operation affects.
    pub fn key(&self) -> (r: &Vec<u8>)
        ensures
            r@ == match self {
                Operation::SetValue { key, .. } => key@,
                Operation::Delete { key } => key@,
            },
    {
        match self {
            Operation::SetValue { key, .. } => key,
            Operation::Delete { key } => key,
        }
    }
}


/// The decoded form of a state operation.
pub enum OpData {
    SetValue { key: Seq<u8>, value: Seq<u8> },
    Delete { key: Seq<u8> },
}

/// The canonical encoding of a state operation: a 32-bit variant index,
/// then the variant's fields.
pub open spec fn spec_enc_operation(op: Operation) -> Seq<u8> {
    match op {
        Operation::SetValue { key, value } => enc_u32(0) + enc_bytes(key@) + enc_bytes(value@),
        Operation::Delete { key } => enc_u32(1) + enc_bytes(key@),
    }
}

/// The canonical encoding of a list of state operations, in order.
pub open spec fn enc_operation_list(s: Seq<Operation>) -> Seq<u8>
    decreases s.len(),
{
    if s.len() == 0 {
        Seq::empty()
    } else {
        spec_enc_operation(s[0]) + enc_operation_list(s.drop_first())
    }
}

/// The canonical encoding of an operation batch: the operation count,
/// each operation, then the metadata.
pub open spec fn spec_encode_batch(b: OperationBatch) -> Seq<u8> {
    enc_u64(b.operations@.len() as u64) + enc_operation_list(b.operations@) + enc_bytes(
        b.metadata@,
    )
}

/// Decode one state operation.
pub open spec fn dec_operation(data: Seq<u8>, pos: int) -> Option<(OpData, int)> {
    match dec_u32(data, pos) {
        None => None,
        Some((tag, p)) => if tag == 0 {
            match dec_bytes(data, p) {
                None => None,
                Some((key, p2)) => match dec_bytes(data, p2) {
                    None => None,
                    Some((value, p3)) => Some((OpData::SetValue { key, value }, p3)),
                },
            }
        } else if tag == 1 {
            match dec_bytes(data, p) {
                None => None,
                Some((key, p2)) => Some((OpData::Delete { key }, p2)),
            }
        } else {
            None
        },
    }
}

/// Decode `n` state operations.
pub open spec fn dec_operation_seq(data: Seq<u8>, pos: int, n: nat) -> Option<(Seq<OpData>, int)>
    decreases n,
{
    if n == 0 {
        Some((Seq::empty(), pos))
    } else {
        match dec_operation(data, pos) {
            None => None,
            Some((op, p)) => match dec_operation_seq(data, p, (n - 1) as nat) {
                None => None,
                Some((rest, p2)) => Some((seq![op] + rest, p2)),
            },
        }
    }
}

/// Decode an operation batch. Trailing bytes are ignored.
pub open spec fn spec_decode_batch(data: Seq<u8>) -> Option<(Seq<OpData>, Seq<u8>)> {
    match dec_u64(data, 0) {
        None => None,
        Some((n, p1)) => match dec_operation_seq(data, p1, n as nat) {
            None => None,
            Some((operations, p2)) => match dec_bytes(data, p2) {
                None => None,
                Some((metadata, _p3)) => Some((operations, metadata)),
            },
        },
    }
}

/// The operation carries exactly the decoded data.
pub open spec fn operation_matches(op: Operation, d: OpData) -> bool {
    match d {
        OpData::SetValue { key, value } => op matches Operation::SetValue {
            key: k,
            value: v,
        } && k@ == key && v@ == value,
        OpData::Delete { key } => op matches Operation::Delete { key: k } && k@ == key,
    }
}

/// Appending one operation extends the canonical operation-list
/// encoding.
proof fn lemma_enc_operation_list_snoc(s: Seq<Operation>, i: int)
    requires
        0 <= i < s.len(),
    ensures
        enc_operation_list(s.take(i + 1)) == enc_operation_list(s.take(i)) + spec_enc_operation(
            s[i],
        ),
    decreases i,
{
    if i == 0 {
        assert(s.take(1)[0] == s[0]);
        assert(s.take(1).drop_first() =~= s.take(0));
        assert(enc_operation_list(s.take(0)) == Seq::<u8>::empty());
        assert(enc_operation_list(s.take(1)) =~= spec_enc_operation(s[0]) + Seq::<u8>::empty());
        assert(enc_operation_list(s.take(0)) + spec_enc_operation(s[0]) =~= spec_enc_operation(
            s[0],
        ) + Seq::<u8>::empty());
    } else {
        lemma_enc_operation_list_snoc(s.drop_first(), i - 1);
        assert(s.take(i + 1)[0] == s[0]);
        assert(s.take(i)[0] == s[0]);
        assert(s.take(i + 1).drop_first() =~= s.drop_first().take(i));
        assert(s.take(i).drop_first() =~= s.drop_first().take(i - 1));
        assert(s.drop_first()[i - 1] == s[i]);
        assert(enc_operation_list(s.take(i + 1)) == spec_enc_operation(s[0])
            + enc_operation_list(s.drop_first().take(i)));
        assert(enc_operation_list(s.take(i)) == spec_enc_operation(s[0]) + enc_operation_list(
            s.drop_first().take(i - 1),
        ));
        assert(spec_enc_operation(s[0]) + (enc_operation_list(s.drop_first().take(i - 1))
            + spec_enc_operation(s[i])) =~= (spec_enc_operation(s[0]) + enc_operation_list(
            s.drop_first().take(i - 1),
        )) + spec_enc_operation(s[i]));
    }
}

/// A successful operation-list decode yields exactly the asked-for
/// number of operations.
proof fn lemma_dec_operation_seq_len(data: Seq<u8>, pos: int, n: nat)
    requires
        dec_operation_seq(data, pos, n) is Some,
    ensures
        dec_operation_seq(data, pos, n).unwrap().0.len() == n,
    decreases n,
{
    if n > 0 {
        let (op, p) = dec_operation(data, pos).unwrap();
        lemma_dec_operation_seq_len(data, p, (n - 1) as nat);
    }
}

/// Read one state operation.
fn read_operation(data: &[u8], pos: usize) -> (r: Option<(Operation, usize)>)
    ensures
        match r {
            Some((op, p)) => dec_operation(data@, pos as int) matches Some(d) && d.1 == p as int
                && operation_matches(op, d.0),
            None => dec_operation(data@, pos as int) is None,
        },
{
    let (tag, p0) = match read_u32(data, pos) {
        Some(x) => x,
        None => {
            return None;
        },
    };
    if tag == 0 {
        let (key, p1) = match read_bytes(data, p0) {
            Some(x) => x,
            None => {
                return None;
            },
        };
        let (value, p2) = match read_bytes(data, p1) {
            Some(x) => x,
            None => {
                return None;
            },
        };
        Some((Operation::SetValue { key, value }, p2))
    } else if tag == 1 {
        let (key, p1) = match read_bytes(data, p0) {
            Some(x) => x,
            None => {
                return None;
            },
        };
        Some((Operation::Delete { key }, p1))
    } else {
        None
    }
}

/// A batch of operations forming one transition.
#[derive(Debug, Clone)]
pub struct OperationBatch {
    /// Operations to apply.
    pub operations: Vec<Operation>,
    /// Application-specific metadata.
    pub metadata: Vec<u8>,
}

impl OperationBatch {
    /// Create a new operation batch with empty metadata.
    pub fn new(operations: Vec<Operation>) -> (r: Self)
        ensures
            r.operations == operations,
            r.metadata@.len() == 0,
    {
        OperationBatch { operations, metadata: Vec::new() }
    }

    /// Attach metadata.
    pub fn with_metadata(self, metadata: Vec<u8>) -> (r: Self)
        ensures
            r.operations == self.operations,
            r.metadata@ == metadata@,
    {
        OperationBatch { metadata, ..self }
    }

    /// Encode to canonical bytes.
    pub fn encode(&self) -> (r: Vec<u8>)
        ensures
            r@ == spec_encode_batch(*self),
    {
        let mut out: Vec<u8> = Vec::new();
        write_u64(&mut out, self.operations.len() as u64);
        let ghost header = out@;
        let mut i: usize = 0;
        proof {
            assert(out@ =~= header + enc_operation_list(self.operations@.take(0)));
        }
        while i < self.operations.len()
            invariant
                i <= self.operations@.len(),
                out@ == header + enc_operation_list(self.operations@.take(i as int)),
            decreases self.operations@.len() - i,
        {
            let ghost before = out@;
            match &self.operations[i] {
                Operation::SetValue { key, value } => {
                    write_u32(&mut out, 0);
                    write_bytes(&mut out, key.as_slice());
                    write_bytes(&mut out, value.as_slice());
                },
                Operation::Delete { key } => {
                    write_u32(&mut out, 1);
                    write_bytes(&mut out, key.as_slice());
                },
            }
            proof {
                assert(out@ =~= before + spec_enc_operation(self.operations@[i as int]));
                lemma_enc_operation_list_snoc(self.operations@, i as int);
            }
            i += 1;
        }
        proof {
            assert(self.operations@.take(self.operations@.len() as int) =~= self.operations@);
        }
        write_bytes(&mut out, self.metadata.as_slice());
        proof {
            assert(out@ =~= spec_encode_batch(*self));
        }
        out
    }

    /// Decode from bytes; fails exactly on malformed bytes.
    pub fn decode(data: &[u8]) -> (r: Result<Self, BlobError>)
        ensures
            r is Ok <==> spec_decode_batch(data@) is Some,
            match r {
                Ok(b) => spec_decode_batch(data@) matches Some(t) && {
                    &&& b.operations@.len() == t.0.len()
                    &&& forall|k: int|
                        0 <= k < t.0.len() ==> operation_matches(
                            #[trigger] b.operations@[k],
                            t.0[k],
                        )
                    &&& b.metadata@ == t.1
                },
                Err(_) => true,
            },
    {
        let fail: &str = "invalid batch encoding";
        let (n, p1) = match read_u64(data, 0) {
            Some(x) => x,
            None => {
                return Err(BlobError::Encoding(fail.to_owned()));
            },
        };
        let ghost full = dec_operation_seq(data@, p1 as int, n as nat);
        let mut operations: Vec<Operation> = Vec::new();
        let mut pos = p1;
        let mut i: u64 = 0;
        proof {
            if full is Some {
                lemma_dec_operation_seq_len(data@, p1 as int, n as nat);
            }
        }
        while i < n
            invariant
                i <= n,
                full == dec_operation_seq(data@, p1 as int, n as nat),
                dec_u64(data@, 0) == Some((n, p1 as int)),
                full is None ==> dec_operation_seq(data@, pos as int, (n - i) as nat) is None,
                full is Some ==> {
                    &&& full.unwrap().0.len() == n
                    &&& dec_operation_seq(data@, pos as int, (n - i) as nat) == Some(
                        (full.unwrap().0.skip(i as int), full.unwrap().1),
                    )
                    &&& operations@.len() == i
                    &&& forall|k: int|
                        0 <= k < i ==> operation_matches(
                            #[trigger] operations@[k],
                            full.unwrap().0[k],
                        )
                },
            decreases n - i,
        {
            let (op, p_next) = match read_operation(data, pos) {
                Some(x) => x,
                None => {
                    proof {
                        if full is Some {
                            assert(dec_operation_seq(data@, pos as int, (n - i) as nat) is Some);
                            assert(dec_operation(data@, pos as int) is Some);
                        }
                        assert(spec_decode_batch(data@) is None);
                    }
                    return Err(BlobError::Encoding(fail.to_owned()));
                },
            };
            proof {
                if full is Some {
                    let os = full.unwrap().0;
                    assert(os.skip(i as int)[0] == os[i as int]);
                    assert(os.skip(i as int).drop_first() =~= os.skip(i as int + 1));
                }
            }
            operations.push(op);
            pos = p_next;
            i = i + 1;
        }
        proof {
            assert(dec_operation_seq(data@, pos as int, 0nat) is Some);
        }
        let (metadata, _p3) = match read_bytes(data, pos) {
            Some(x) => x,
            None => {
                return Err(BlobError::Encoding(fail.to_owned()));
            },
        };
        Ok(OperationBatch { operations, metadata })
    }
}

/// The root that a witness chain starting from `prev` arrives at: each
/// witness must recompute the running root as its old root, and the chain
/// emits its new root. `None` when some witness does not match.
pub open spec fn spec_chain(prev: Seq<u8>, ws: Seq<UpdateWitness>) -> Option<Seq<u8>>
    decreases ws.len(),
{
    if ws.len() == 0 {
        Some(prev)
    } else if ws[0].spec_old_root() == prev {
        spec_chain(ws[0].spec_new_root(), ws.drop_first())
    } else {
        None
    }
}

/// All witnesses carry at most `TREE_DEPTH` siblings.
pub open spec fn witnesses_wf(ws: Seq<UpdateWitness>) -> bool {
    forall|i: int| 0 <= i < ws.len() ==> #[trigger] ws[i].siblings@.len() <= TREE_DEPTH
}

/// Verify that a sequence of witnesses chains the root from `prev_root`
/// to the returned root: each witness's old root must equal the running
/// root, which the witness's new root then replaces.
pub fn verify_witnesses(prev_root: Hash32, witnesses: &[UpdateWitness]) -> (r: Result<
    Hash32,
    &'static str,
>)
    requires
        witnesses_wf(witnesses@),
    ensures
        match r {
            Ok(h) => spec_chain(prev_root@, witnesses@) == Some(h@),
            Err(_) => spec_chain(prev_root@, witnesses@) is None,
        },
{
    let mut current_root = prev_root;
    let mut i: usize = 0;
    proof {
        assert(witnesses@.skip(0) =~= witnesses@);
    }
    while i < witnesses.len()
        invariant
            i <= witnesses@.len(),
            witnesses_wf(witnesses@),
            spec_chain(prev_root@, witnesses@) == spec_chain(
                current_root@,
                witnesses@.skip(i as int),
            ),
        decreases witnesses@.len() - i,
    {
        let w = &witnesses[i];
        proof {
            assert(witnesses@.skip(i as int)[0] == witnesses@[i as int]);
            assert(witnesses@.skip(i as int).drop_first() =~= witnesses@.skip(i as int + 1));
        }
        let old_root = w.compute_old_root();
        if !crate::hash::hash_eq(&old_root, &current_root) {
            return Err("witness old root mismatch");
        }
        current_root = w.compute_new_root();
        i += 1;
    }
    proof {
        assert(witnesses@.skip(witnesses@.len() as int) =~= Seq::<UpdateWitness>::empty());
    }
    Ok(current_root)
}

/// Build a transition input from state operations' witnesses.
pub fn build_transition_input(
    prev_root: Hash32,
    public_inputs: Vec<u8>,
    private_inputs: Vec<u8>,
    witnesses: Vec<UpdateWitness>,
) -> (r: TransitionInput)
    ensures
        r.prev_root@ == prev_root@,
        r.public_inputs@ == public_inputs@,
        r.private_inputs@ == private_inputs@,
        r.witnesses == witnesses,
        r.operations@.len() == 0,
{
    TransitionInput::new(prev_root, public_inputs, private_inputs, witnesses)
}

} // verus!
