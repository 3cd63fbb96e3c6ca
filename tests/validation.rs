use starknet_devnet_core::declare_transaction::{Cairo0ContractClass, DeclareTransactionV1};
use starknet_devnet_core::error::{Error, StateError, TransactionError};
use starknet_devnet_core::felt::{ContractAddress, Felt};
use starknet_devnet_core::snapshot::{LedgerState, StateEntry};
use starknet_devnet_core::validation::{accept_declare, find_account};

fn sender() -> Felt {
    Felt::from_u128(0xADD4E55)
}

fn declare_with_nonce(nonce: u128) -> DeclareTransactionV1 {
    DeclareTransactionV1::new(
        ContractAddress::new(sender()).unwrap(),
        10,
        vec![],
        Felt::from_u128(nonce),
        Cairo0ContractClass { raw_json: vec![1, 2, 3] },
        Felt::from_u128(0x534e5f474f45524c49),
    )
    .unwrap()
}

fn ledger_with_account(nonce: u128) -> LedgerState {
    LedgerState {
        entries: vec![
            StateEntry::Storage { address: sender(), key: Felt::from_u128(1), value: Felt::from_u128(2) },
            StateEntry::Account { address: sender(), class_hash: Felt::from_u128(0xC1A55), nonce: Felt::from_u128(nonce) },
        ],
    }
}

#[test]
fn accepting_with_the_expected_nonce_records_and_bumps_the_nonce() {
    let mut state = ledger_with_account(4);
    let tx = declare_with_nonce(4);
    accept_declare(&mut state, &tx, Felt::from_u128(0xBEEF)).unwrap();
    assert_eq!(state.entries.len(), 3);
    assert_eq!(
        state.entries[1],
        StateEntry::Account { address: sender(), class_hash: Felt::from_u128(0xC1A55), nonce: Felt::from_u128(5) }
    );
    assert_eq!(
        state.entries[2],
        StateEntry::Transaction { hash: Felt::from_u128(0xBEEF), sender: sender(), nonce: Felt::from_u128(4) }
    );
}

#[test]
fn wrong_nonce_is_refused_and_ledger_untouched() {
    let mut state = ledger_with_account(4);
    let tx = declare_with_nonce(3);
    let r = accept_declare(&mut state, &tx, Felt::from_u128(0xBEEF));
    assert!(matches!(r, Err(Error::TransactionError(TransactionError::InvalidNonce))));
    assert_eq!(state.entries, ledger_with_account(4).entries);
}

#[test]
fn missing_account_is_refused() {
    let mut state = LedgerState { entries: vec![] };
    let r = accept_declare(&mut state, &declare_with_nonce(0), Felt::from_u128(1));
    assert!(matches!(r, Err(Error::StateError(StateError::AccountNotFound))));
    assert!(state.entries.is_empty());
}

#[test]
fn find_account_skips_other_entries() {
    let state = ledger_with_account(0);
    assert_eq!(find_account(&state.entries, sender()), Some(1));
    assert_eq!(find_account(&state.entries, Felt::from_u128(1)), None);
}

#[test]
fn successor_wraps_at_the_prime() {
    assert_eq!(Felt::from_u128(u128::MAX).successor().to_bytes_be()[15], 1);
    let mut last = [0u8; 32];
    last[0] = 0x08;
    last[7] = 0x11;
    assert_eq!(Felt::new(last).unwrap().successor(), Felt::from_u128(0));
    assert_eq!(Felt::from_u128(41).successor(), Felt::from_u128(42));
}

#[test]
fn big_endian_bytes_round_trip() {
    let mut bytes = [0u8; 32];
    for i in 0..32 {
        bytes[i] = i as u8;
    }
    let f = Felt::new(bytes).unwrap();
    assert_eq!(f.to_bytes_be(), bytes);
    let mut one = [0u8; 32];
    one[31] = 1;
    assert_eq!(Felt::from_u128(1).to_bytes_be(), one);
}
