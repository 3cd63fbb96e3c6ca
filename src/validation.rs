//! Admission of declare transactions into the ledger.
use vstd::prelude::*;

use crate::declare_transaction::DeclareTransactionV1;
use crate::error::{Error, StateError, TransactionError};
use crate::felt::Felt;
use crate::snapshot::{LedgerState, StateEntry};

verus! {

/// `e` is the account entry of `address`.
pub open spec fn is_account_of(e: StateEntry, address: Felt) -> bool {
    e matches StateEntry::Account { address: a, .. } && a == address
}

/// `i` is the position of the first account entry of `address` in `s`.
pub open spec fn first_account(s: Seq<StateEntry>, address: Felt, i: int) -> bool {
    &&& 0 <= i < s.len()
    &&& is_account_of(s[i], address)
    &&& forall|j: int| 0 <= j < i ==> !is_account_of(#[trigger] s[j], address)
}

/// `s` holds an account entry of `address`.
pub open spec fn has_account(s: Seq<StateEntry>, address: Felt) -> bool {
    exists|i: int| 0 <= i < s.len() && is_account_of(#[trigger] s[i], address)
}

/// The ledger after accepting a transaction whose sender's first account
/// entry is at `i`: that account's nonce moves on by one, and the
/// transaction is recorded under its hash.
pub open spec fn accepted(
    s: Seq<StateEntry>,
    i: int,
    tx_hash: Felt,
    sender: Felt,
    nonce: Felt,
    next_nonce: Felt,
) -> Seq<StateEntry> {
    match s[i] {
        StateEntry::Account { address, class_hash, .. } => s.update(
            i,
            StateEntry::Account { address, class_hash, nonce: next_nonce },
        ).push(StateEntry::Transaction { hash: tx_hash, sender, nonce }),
        _ => s,
    }
}

/// The position of the first account entry of `address`, if there is one.
pub fn find_account(entries: &Vec<StateEntry>, address: Felt) -> (r: Option<usize>)
    ensures
        r matches Some(i) ==> first_account(entries@, address, i as int),
        r is None <==> !has_account(entries@, address),
{
    let mut i: usize = 0;
    while i < entries.len()
        invariant
            i <= entries@.len(),
            forall|j: int| 0 <= j < i ==> !is_account_of(#[trigger] entries@[j], address),
        decreases entries@.len() - i,
    {
        if let StateEntry::Account { address: a, .. } = entries[i] {
            if a == address {
                return Some(i);
            }
        }
        i = i + 1;
    }
    None
}

/// Accepts a declare transaction whose hash is `tx_hash`: the sender must
/// have an account whose nonce is the transaction's. On success the account's
/// nonce moves on by one and the transaction is recorded; on failure the
/// ledger is left as it was.
pub fn accept_declare(state: &mut LedgerState, tx: &DeclareTransactionV1, tx_hash: Felt) -> (r:
    Result<(), Error>)
    requires
        tx.wf(),
        forall|i: int|
            0 <= i < old(state).entries@.len() ==> (#[trigger] old(state).entries@[i]).wf(),
    ensures
        r is Err ==> *final(state) == *old(state),
        !has_account(old(state).entries@, tx.sender_address.felt_spec()) ==> r == Err::<(), Error>(
            Error::StateError(StateError::AccountNotFound),
        ),
        forall|i: int|
            first_account(old(state).entries@, tx.sender_address.felt_spec(), i) ==> {
                let n = old(state).entries@[i].parts().3;
                if n == tx.nonce {
                    &&& r is Ok
                    &&& final(state).entries@ == accepted(
                        old(state).entries@,
                        i,
                        tx_hash,
                        tx.sender_address.felt_spec(),
                        tx.nonce,
                        final(state).entries@[i].parts().3,
                    )
                    &&& final(state).entries@[i].parts().3.value() == (n.value() + 1)
                        % crate::felt::felt_prime()
                } else {
                    r == Err::<(), Error>(Error::TransactionError(TransactionError::InvalidNonce))
                }
            },
{
    let sender = tx.sender_address.felt();
    let i = match find_account(&state.entries, sender) {
        Some(i) => i,
        None => return Err(Error::StateError(StateError::AccountNotFound)),
    };
    let (address, class_hash, nonce) = match state.entries[i] {
        StateEntry::Account { address, class_hash, nonce } => (address, class_hash, nonce),
        _ => return Err(Error::StateError(StateError::AccountNotFound)),
    };
    if nonce != tx.nonce {
        return Err(Error::TransactionError(TransactionError::InvalidNonce));
    }
    assert(old(state).entries@[i as int].wf());
    let next = nonce.successor();
    state.entries.set(i, StateEntry::Account { address, class_hash, nonce: next });
    state.entries.push(StateEntry::Transaction { hash: tx_hash, sender, nonce: tx.nonce });
    proof {
        assert forall|k: int| first_account(old(state).entries@, sender, k) implies k == i by {
            if k < i {
                assert(!is_account_of(old(state).entries@[k], sender));
            }
            if k > i {
            }
        }
    }
    Ok(())
}

} // verus!
