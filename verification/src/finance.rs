//! Finance-flavoured application state: accounts with a balance and a
//! nonce, and the transfer predicate the guest verifier enforces.

use vstd::prelude::*;

use crate::bytes::enc_u64;
use crate::bytes::read_u64;
use crate::bytes::write_u64;

verus! {

/// A balance transfer request.
#[derive(Debug, Clone)]
pub struct Transfer {
    pub from: String,
    pub to: String,
    pub amount: u64,
    pub nonce: u64,
}

/// Account state: a balance and a replay-protection nonce.
#[derive(Debug, Clone, PartialEq, Eq, Structural)]
pub struct Account {
    pub balance: u64,
    pub nonce: u64,
}

impl Default for Account {
    /// The empty account: zero balance, zero nonce.
    fn default() -> (r: Self)
        ensures
            r.balance == 0 && r.nonce == 0,
    {
        Account { balance: 0, nonce: 0 }
    }
}

/// The canonical 16-byte encoding of an account: balance then nonce,
/// both little-endian.
pub open spec fn spec_encode_account(a: Account) -> Seq<u8> {
    enc_u64(a.balance) + enc_u64(a.nonce)
}

/// The decoding of an account: the first sixteen bytes, little-endian,
/// balance then nonce. Trailing bytes are ignored.
pub open spec fn spec_decode_account(data: Seq<u8>) -> Option<Account> {
    if data.len() >= 16 {
        Some(
            Account {
                balance: vstd::bytes::spec_u64_from_le_bytes(data.subrange(0, 8)),
                nonce: vstd::bytes::spec_u64_from_le_bytes(data.subrange(8, 16)),
            },
        )
    } else {
        None
    }
}

impl Account {
    /// Encode to the canonical 16-byte form.
    pub fn encode(&self) -> (r: Vec<u8>)
        ensures
            r@ == spec_encode_account(*self),
    {
        let mut out: Vec<u8> = Vec::new();
        write_u64(&mut out, self.balance);
        write_u64(&mut out, self.nonce);
        out
    }

    /// Decode an account from bytes; `None` if fewer than sixteen bytes.
    pub fn decode(data: &[u8]) -> (r: Option<Self>)
        ensures
            r == spec_decode_account(data@),
    {
        let (balance, p1) = match read_u64(data, 0) {
            Some(x) => x,
            None => {
                return None;
            },
        };
        let (nonce, _p2) = match read_u64(data, p1) {
            Some(x) => x,
            None => {
                return None;
            },
        };
        Some(Account { balance, nonce })
    }
}

/// Decoding the canonical encoding of an account yields it back.
pub proof fn lemma_account_round_trip(a: Account)
    ensures
        spec_decode_account(spec_encode_account(a)) == Some(a),
{
    vstd::bytes::lemma_auto_spec_u64_to_from_le_bytes();
    let data = spec_encode_account(a);
    assert(data.subrange(0, 8) =~= enc_u64(a.balance));
    assert(data.subrange(8, 16) =~= enc_u64(a.nonce));
}

/// The transfer predicate: the sender covers the amount at the expected
/// nonce, the sender's balance falls and nonce rises by one, and the
/// receiver's balance rises with an unchanged nonce.
pub open spec fn spec_verify_transfer(
    from_old: Account,
    from_new: Account,
    to_old: Account,
    to_new: Account,
    amount: u64,
    expected_nonce: u64,
) -> bool {
    &&& from_old.balance >= amount
    &&& from_old.nonce == expected_nonce
    &&& from_new.balance == from_old.balance - amount
    &&& to_new.balance == to_old.balance + amount
    &&& from_new.nonce == from_old.nonce + 1
    &&& to_new.nonce == to_old.nonce
}

/// Verify a transfer operation. Returns true exactly when the transfer
/// predicate holds of the four account states.
pub fn verify_transfer(
    from_old: &Account,
    from_new: &Account,
    to_old: &Account,
    to_new: &Account,
    amount: u64,
    expected_nonce: u64,
) -> (r: bool)
    ensures
        r == spec_verify_transfer(*from_old, *from_new, *to_old, *to_new, amount, expected_nonce),
{
    if from_old.balance < amount {
        return false;
    }
    if from_old.nonce != expected_nonce {
        return false;
    }
    if from_new.balance != from_old.balance - amount {
        return false;
    }
    if (to_new.balance as u128) != (to_old.balance as u128) + (amount as u128) {
        return false;
    }
    if (from_new.nonce as u128) != (from_old.nonce as u128) + 1 {
        return false;
    }
    if to_new.nonce != to_old.nonce {
        return false;
    }
    true
}

} // verus!
