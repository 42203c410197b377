//! Account-based state helpers over the application context: balances
//! and nonces stored as 64-bit little-endian counters under prefixed
//! keys.

use vstd::prelude::*;
use vstd::string::StringSliceAdditionalSpecFns;

use crate::bytes::dec_u64;
use crate::bytes::enc_u64;
use crate::sdk::Context;
use crate::sdk::SdkError;
use crate::state::insert_slot;

verus! {

/// The key under which an account's balance is stored: `balance:` then
/// the account name's bytes.
pub open spec fn spec_balance_key(name: Seq<u8>) -> Seq<u8> {
    seq![98u8, 97u8, 108u8, 97u8, 110u8, 99u8, 101u8, 58u8] + name
}

/// The key under which an account's nonce is stored: `nonce:` then the
/// account name's bytes.
pub open spec fn spec_nonce_key(name: Seq<u8>) -> Seq<u8> {
    seq![110u8, 111u8, 110u8, 99u8, 101u8, 58u8] + name
}

/// The 64-bit counter a key denotes in the persistent map: zero when
/// absent, its first eight little-endian bytes when present, or nothing
/// when present but too short.
pub open spec fn counter_of(db: Map<Seq<u8>, Seq<u8>>, key: Seq<u8>) -> Option<u64> {
    if !db.dom().contains(key) {
        Some(0u64)
    } else {
        match dec_u64(db[key], 0) {
            Some(p) => Some(p.0),
            None => None,
        }
    }
}

/// Account balance key.
pub fn balance_key(account: &str) -> (r: Vec<u8>)
    ensures
        r@ == spec_balance_key(account.spec_bytes()),
{
    let mut key: Vec<u8> = vec![98u8, 97u8, 108u8, 97u8, 110u8, 99u8, 101u8, 58u8];
    key.extend_from_slice(account.as_bytes());
    proof {
        assert(key@ =~= spec_balance_key(account.spec_bytes()));
    }
    key
}

/// Account nonce key.
pub fn nonce_key(account: &str) -> (r: Vec<u8>)
    ensures
        r@ == spec_nonce_key(account.spec_bytes()),
{
    let mut key: Vec<u8> = vec![110u8, 111u8, 110u8, 99u8, 101u8, 58u8];
    key.extend_from_slice(account.as_bytes());
    proof {
        assert(key@ =~= spec_nonce_key(account.spec_bytes()));
    }
    key
}

/// Get an account's balance; an absent account has balance zero.
pub fn get_balance(ctx: &Context, account: &str) -> (r: Result<u64, SdkError>)
    ensures
        match r {
            Ok(x) => counter_of(ctx.db_view(), spec_balance_key(account.spec_bytes())) == Some(x),
            Err(e) => !(e matches SdkError::Application(_)),
        },
{
    let key = balance_key(account);
    match ctx.get_u64(key.as_slice()) {
        Ok(Some(x)) => Ok(x),
        Ok(None) => Ok(0),
        Err(e) => Err(e),
    }
}

/// Set an account's balance.
pub fn set_balance(ctx: &mut Context, account: &str, balance: u64) -> (r: Result<(), SdkError>)
    requires
        old(ctx).wf(),
    ensures
        final(ctx).wf(),
        r is Ok ==> {
            &&& final(ctx).db_view() == old(ctx).db_view().insert(
                spec_balance_key(account.spec_bytes()),
                enc_u64(balance),
            )
            &&& final(ctx).tree_view() == insert_slot(
                old(ctx).tree_view(),
                spec_balance_key(account.spec_bytes()),
                enc_u64(balance),
            )
        },
        r matches Err(e) ==> e matches SdkError::State(_),
{
    let key = balance_key(account);
    ctx.set_u64(key.as_slice(), balance)
}

/// Get an account's nonce; an absent account has nonce zero.
pub fn get_nonce(ctx: &Context, account: &str) -> (r: Result<u64, SdkError>)
    ensures
        match r {
            Ok(x) => counter_of(ctx.db_view(), spec_nonce_key(account.spec_bytes())) == Some(x),
            Err(e) => !(e matches SdkError::Application(_)),
        },
{
    let key = nonce_key(account);
    match ctx.get_u64(key.as_slice()) {
        Ok(Some(x)) => Ok(x),
        Ok(None) => Ok(0),
        Err(e) => Err(e),
    }
}

/// Increment an account's nonce and return the new value. Fails rather
/// than wrap when the stored nonce is at the maximum, leaving the state
/// untouched.
pub fn increment_nonce(ctx: &mut Context, account: &str) -> (r: Result<u64, SdkError>)
    requires
        old(ctx).wf(),
    ensures
        final(ctx).wf(),
        r matches Err(SdkError::Application(_)) ==> {
            &&& counter_of(old(ctx).db_view(), spec_nonce_key(account.spec_bytes())) == Some(
                u64::MAX,
            )
            &&& final(ctx).db_view() == old(ctx).db_view()
            &&& final(ctx).tree_view() == old(ctx).tree_view()
        },
        r matches Ok(n) ==> {
            &&& counter_of(old(ctx).db_view(), spec_nonce_key(account.spec_bytes())) == Some(
                (n - 1) as u64,
            )
            &&& final(ctx).db_view() == old(ctx).db_view().insert(
                spec_nonce_key(account.spec_bytes()),
                enc_u64(n),
            )
        },
{
    let nonce = match get_nonce(ctx, account) {
        Ok(n) => n,
        Err(e) => {
            return Err(e);
        },
    };
    if nonce == u64::MAX {
        return Err(SdkError::Application("nonce overflow".to_owned()));
    }
    let new_nonce = nonce + 1;
    let key = nonce_key(account);
    match ctx.set_u64(key.as_slice(), new_nonce) {
        Ok(()) => Ok(new_nonce),
        Err(e) => Err(e),
    }
}

/// Transfer between accounts: fails exactly when the sender's balance
/// does not cover the amount (or the receiver's balance would overflow);
/// otherwise moves the amount from the sender to the receiver.
pub fn transfer(ctx: &mut Context, from: &str, to: &str, amount: u64) -> (r: Result<(), SdkError>)
    requires
        old(ctx).wf(),
    ensures
        final(ctx).wf(),
        r matches Err(SdkError::Application(_)) ==> final(ctx).db_view() == old(ctx).db_view()
            && final(ctx).tree_view() == old(ctx).tree_view(),
        ({
            let db0 = old(ctx).db_view();
            let fkey = spec_balance_key(from.spec_bytes());
            let tkey = spec_balance_key(to.spec_bytes());
            (counter_of(db0, fkey) is Some && counter_of(db0, tkey) is Some && fkey != tkey)
                ==> {
                &&& (r matches Err(SdkError::Application(_)) ==> (counter_of(
                    db0,
                    fkey,
                ).unwrap() < amount || counter_of(db0, tkey).unwrap() + amount > u64::MAX))
                &&& (r is Ok ==> counter_of(db0, fkey).unwrap() >= amount && counter_of(
                    db0,
                    tkey,
                ).unwrap() + amount <= u64::MAX)
                &&& (r is Ok ==> final(ctx).db_view() == db0.insert(
                    fkey,
                    enc_u64((counter_of(db0, fkey).unwrap() - amount) as u64),
                ).insert(tkey, enc_u64((counter_of(db0, tkey).unwrap() + amount) as u64)))
            }
        }),
{
    let from_balance = match get_balance(ctx, from) {
        Ok(b) => b,
        Err(e) => {
            return Err(e);
        },
    };
    if from_balance < amount {
        return Err(SdkError::Application("insufficient balance".to_owned()));
    }
    let to_balance = match get_balance(ctx, to) {
        Ok(b) => b,
        Err(e) => {
            return Err(e);
        },
    };
    if to_balance > u64::MAX - amount {
        return Err(SdkError::Application("balance overflow".to_owned()));
    }
    match set_balance(ctx, from, from_balance - amount) {
        Ok(()) => {},
        Err(e) => {
            return Err(e);
        },
    }
    match set_balance(ctx, to, to_balance + amount) {
        Ok(()) => {},
        Err(e) => {
            return Err(e);
        },
    }
    Ok(())
}

} // verus!
