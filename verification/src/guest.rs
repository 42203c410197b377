//! The guest state-transition verifier: a pure, deterministic program
//! that re-derives the new root from the update witnesses and enforces
//! the business-logic predicate of every verifiable operation.
//!
//! A zero-knowledge virtual machine runs this same logic to attest to a
//! transition; here it stands as an ordinary function so the host can
//! execute a transition without proving, and so the predicate itself is
//! verified once and for all.

use vstd::prelude::*;

use crate::finance::Account;
use crate::finance::spec_decode_account;
use crate::finance::spec_verify_transfer;
use crate::finance::verify_transfer;
use crate::hash::hash_eq;
use crate::hash::hash_key;
use crate::hash::sha256_of;
use crate::hash::spec_hash_key;
use crate::merkle::UpdateWitness;
use crate::merkle::opt_bytes;
use crate::transition::OperationType;
use crate::transition::TransitionInput;
use crate::transition::TransitionOutput;
use crate::transition::VerifiableOperation;
use crate::transition::spec_chain;
use crate::transition::verify_witnesses;
use crate::transition::witnesses_wf;

verus! {

/// Why the guest rejected a transition.
#[derive(Debug, Clone, PartialEq, Eq)]
pub enum GuestError {
    /// Some verifiable operation failed its business-logic predicate.
    InvalidOperation,
    /// Some witness did not recompute the running root.
    RootMismatch,
}

/// The account a claimed optional value decodes to, if any.
pub open spec fn spec_account_of(v: Option<Seq<u8>>) -> Option<Account> {
    match v {
        Some(b) => spec_decode_account(b),
        None => None,
    }
}

/// Some witness binds the claimed receiver slot: its key is the hash of
/// the operation's key and it carries exactly the claimed old and new
/// values.
pub open spec fn spec_receiver_bound(op: VerifiableOperation, ws: Seq<UpdateWitness>) -> bool {
    exists|j: int|
        0 <= j < ws.len() && #[trigger] ws[j].key@ == spec_hash_key(op.key@) && opt_bytes(
            ws[j].old_value,
        ) == opt_bytes(op.old_value) && opt_bytes(ws[j].new_value) == opt_bytes(op.new_value)
}

/// The business-logic predicate of one verifiable operation.
///
/// - A raw set has no constraint.
/// - Account creation must write a fresh account with the stated balance
///   and a zero nonce.
/// - A transfer reads the sender's old and new accounts from the witness
///   at `witness_index`, and the receiver's old and new accounts from the
///   operation's claimed values, which some witness on the operation's
///   key must carry verbatim; both accounts must already exist. The
///   sender covers the amount, balances move by the amount, the sender's
///   nonce rises by one and the receiver's is unchanged.
/// - A mint raises the balance by the amount; a burn lowers it by the
///   amount, which the old balance must cover.
pub open spec fn spec_verify_operation(op: VerifiableOperation, ws: Seq<UpdateWitness>) -> bool {
    match op.op_type {
        OperationType::SetValue => true,
        OperationType::CreateAccount { initial_balance } => {
            &&& op.old_value is None
            &&& spec_account_of(opt_bytes(op.new_value)) matches Some(a) && a.balance
                == initial_balance && a.nonce == 0
        },
        OperationType::Transfer { from, to, amount } => {
            &&& op.witness_index < ws.len()
            &&& spec_account_of(opt_bytes(ws[op.witness_index as int].old_value)) matches Some(
                from_old,
            ) && spec_account_of(opt_bytes(ws[op.witness_index as int].new_value)) matches Some(
                from_new,
            ) && spec_account_of(opt_bytes(op.old_value)) matches Some(to_old) && spec_account_of(
                opt_bytes(op.new_value),
            ) matches Some(to_new) && spec_receiver_bound(op, ws) && spec_verify_transfer(
                from_old,
                from_new,
                to_old,
                to_new,
                amount,
                from_old.nonce,
            )
        },
        OperationType::Mint { amount } => {
            &&& spec_account_of(opt_bytes(op.old_value)) matches Some(old_acc) && spec_account_of(
                opt_bytes(op.new_value),
            ) matches Some(new_acc) && new_acc.balance == old_acc.balance + amount
        },
        OperationType::Burn { amount } => {
            &&& spec_account_of(opt_bytes(op.old_value)) matches Some(old_acc) && spec_account_of(
                opt_bytes(op.new_value),
            ) matches Some(new_acc) && old_acc.balance >= amount && new_acc.balance
                == old_acc.balance - amount
        },
    }
}

/// All operations of an input pass their predicate.
pub open spec fn spec_operations_ok(ops: Seq<VerifiableOperation>, ws: Seq<UpdateWitness>) -> bool {
    forall|i: int| 0 <= i < ops.len() ==> spec_verify_operation(#[trigger] ops[i], ws)
}

/// Decode the account a claimed optional value holds, if any.
fn account_of(v: &Option<Vec<u8>>) -> (r: Option<Account>)
    ensures
        r == spec_account_of(opt_bytes(*v)),
{
    match v {
        Some(b) => Account::decode(b.as_slice()),
        None => None,
    }
}

/// Byte-wise equality of two optional byte vectors.
fn opt_value_eq(a: &Option<Vec<u8>>, b: &Option<Vec<u8>>) -> (r: bool)
    ensures
        r == (opt_bytes(*a) == opt_bytes(*b)),
{
    match a {
        None => match b {
            None => true,
            Some(_) => false,
        },
        Some(x) => match b {
            None => false,
            Some(y) => {
                if x.len() != y.len() {
                    return false;
                }
                let mut i: usize = 0;
                while i < x.len()
                    invariant
                        i <= x@.len() == y@.len(),
                        opt_bytes(*a) == Some(x@) && opt_bytes(*b) == Some(y@),
                        forall|j: int| 0 <= j < i ==> x@[j] == y@[j],
                    decreases x@.len() - i,
                {
                    if x[i] != y[i] {
                        return false;
                    }
                    i += 1;
                }
                proof {
                    assert(x@ =~= y@);
                }
                true
            },
        },
    }
}

/// Verify the business-logic predicate of one operation against the
/// witness vector.
pub fn verify_operation(op: &VerifiableOperation, witnesses: &Vec<UpdateWitness>) -> (r: bool)
    ensures
        r == spec_verify_operation(*op, witnesses@),
{
    match &op.op_type {
        OperationType::SetValue => true,
        OperationType::CreateAccount { initial_balance } => {
            if !matches!(op.old_value, None) {
                return false;
            }
            match account_of(&op.new_value) {
                Some(a) => a.balance == *initial_balance && a.nonce == 0,
                None => false,
            }
        },
        OperationType::Transfer { from: _, to: _, amount } => {
            if op.witness_index >= witnesses.len() {
                return false;
            }
            let w = &witnesses[op.witness_index];
            let from_old = match account_of(&w.old_value) {
                Some(a) => a,
                None => {
                    return false;
                },
            };
            let from_new = match account_of(&w.new_value) {
                Some(a) => a,
                None => {
                    return false;
                },
            };
            let to_old = match account_of(&op.old_value) {
                Some(a) => a,
                None => {
                    return false;
                },
            };
            let to_new = match account_of(&op.new_value) {
                Some(a) => a,
                None => {
                    return false;
                },
            };
            let key_hash = hash_key(op.key.as_slice());
            let mut bound = false;
            let mut j: usize = 0;
            while j < witnesses.len()
                invariant
                    j <= witnesses@.len(),
                    key_hash@ == spec_hash_key(op.key@),
                    bound ==> spec_receiver_bound(*op, witnesses@),
                    !bound ==> forall|k: int|
                        0 <= k < j ==> !(#[trigger] witnesses@[k].key@ == spec_hash_key(op.key@)
                            && opt_bytes(witnesses@[k].old_value) == opt_bytes(op.old_value)
                            && opt_bytes(witnesses@[k].new_value) == opt_bytes(op.new_value)),
                decreases witnesses@.len() - j,
            {
                let wj = &witnesses[j];
                if hash_eq(&wj.key, &key_hash) && opt_value_eq(&wj.old_value, &op.old_value)
                    && opt_value_eq(&wj.new_value, &op.new_value) {
                    bound = true;
                }
                j += 1;
            }
            if !bound {
                return false;
            }
            verify_transfer(&from_old, &from_new, &to_old, &to_new, *amount, from_old.nonce)
        },
        OperationType::Mint { amount } => {
            let old_acc = match account_of(&op.old_value) {
                Some(a) => a,
                None => {
                    return false;
                },
            };
            let new_acc = match account_of(&op.new_value) {
                Some(a) => a,
                None => {
                    return false;
                },
            };
            (new_acc.balance as u128) == (old_acc.balance as u128) + (*amount as u128)
        },
        OperationType::Burn { amount } => {
            let old_acc = match account_of(&op.old_value) {
                Some(a) => a,
                None => {
                    return false;
                },
            };
            let new_acc = match account_of(&op.new_value) {
                Some(a) => a,
                None => {
                    return false;
                },
            };
            old_acc.balance >= *amount && new_acc.balance == old_acc.balance - *amount
        },
    }
}

/// Run the guest verifier on a transition input: check every operation's
/// predicate, replay the witness chain from the previous root, and commit
/// the transition output.
///
/// Succeeds exactly when every operation passes and the witnesses chain
/// from the previous root; the output then carries the previous root, the
/// chained new root, the public-inputs hash, and empty public outputs.
pub fn run_transition(input: &TransitionInput) -> (r: Result<TransitionOutput, GuestError>)
    requires
        witnesses_wf(input.witnesses@),
    ensures
        match r {
            Ok(out) => {
                &&& spec_operations_ok(input.operations@, input.witnesses@)
                &&& spec_chain(input.prev_root@, input.witnesses@) == Some(out.new_root@)
                &&& out.prev_root@ == input.prev_root@
                &&& out.public_inputs_hash@ == sha256_of(input.prev_root@ + input.public_inputs@)
                &&& out.public_outputs@.len() == 0
            },
            Err(GuestError::InvalidOperation) => !spec_operations_ok(
                input.operations@,
                input.witnesses@,
            ),
            Err(GuestError::RootMismatch) => spec_operations_ok(
                input.operations@,
                input.witnesses@,
            ) && spec_chain(input.prev_root@, input.witnesses@) is None,
        },
{
    let mut i: usize = 0;
    while i < input.operations.len()
        invariant
            i <= input.operations@.len(),
            forall|k: int|
                0 <= k < i ==> spec_verify_operation(
                    #[trigger] input.operations@[k],
                    input.witnesses@,
                ),
        decreases input.operations@.len() - i,
    {
        if !verify_operation(&input.operations[i], &input.witnesses) {
            return Err(GuestError::InvalidOperation);
        }
        i += 1;
    }
    let new_root = match verify_witnesses(input.prev_root, input.witnesses.as_slice()) {
        Ok(h) => h,
        Err(_) => {
            return Err(GuestError::RootMismatch);
        },
    };
    let public_inputs_hash = input.public_inputs_hash();
    Ok(
        TransitionOutput {
            prev_root: input.prev_root,
            new_root,
            public_inputs_hash,
            public_outputs: Vec::new(),
        },
    )
}

} // verus!
