use starknet_devnet_core::error::{Error, HttpApiError};
use starknet_devnet_core::felt::Felt;
use starknet_devnet_core::snapshot::{decode, dump, load, to_http_error, LedgerState, StateEntry};

fn sample_state() -> LedgerState {
    LedgerState {
        entries: vec![
            StateEntry::Account {
                address: Felt::from_u128(0xADD4E55),
                class_hash: Felt::from_u128(0xC1A55),
                nonce: Felt::from_u128(3),
            },
            StateEntry::Storage {
                address: Felt::from_u128(0xADD4E55),
                key: Felt::from_u128(1),
                value: Felt::from_u128(u128::MAX),
            },
            StateEntry::Transaction {
                hash: Felt::from_u128(0xABCDEF),
                sender: Felt::from_u128(0xADD4E55),
                nonce: Felt::from_u128(2),
            },
        ],
    }
}

#[test]
fn empty_ledger_dumps_to_a_zero_count() {
    let bytes = dump(&LedgerState { entries: vec![] });
    assert_eq!(bytes, vec![0u8; 16]);
}

#[test]
fn dump_layout_of_one_entry() {
    let state = LedgerState {
        entries: vec![StateEntry::Storage {
            address: Felt::from_u128(0x0102),
            key: Felt::from_u128(5),
            value: Felt::from_u128(6),
        }],
    };
    let bytes = dump(&state);
    assert_eq!(bytes.len(), 16 + 97);
    assert_eq!(bytes[0], 1);
    assert_eq!(bytes[16], 1);
    assert_eq!(bytes[17], 0x02);
    assert_eq!(bytes[18], 0x01);
    assert_eq!(bytes[49], 5);
    assert_eq!(bytes[81], 6);
}

#[test]
fn load_of_dump_gives_the_same_ledger() {
    let state = sample_state();
    let bytes = dump(&state);
    assert_eq!(bytes.len(), 16 + 3 * 97);
    let mut restored = LedgerState { entries: vec![] };
    assert!(load(&mut restored, Ok(bytes)).is_ok());
    assert_eq!(restored.entries, state.entries);
}

#[test]
fn load_on_missing_source_is_not_found_and_keeps_ledger() {
    let mut state = sample_state();
    let r = load(&mut state, Err(Error::PathNotFound));
    let e = r.unwrap_err();
    assert!(matches!(e, Error::PathNotFound));
    assert_eq!(to_http_error(&e), HttpApiError::PathNotFound);
    assert_eq!(state.entries, sample_state().entries);
}

#[test]
fn load_of_truncated_snapshot_fails_and_keeps_ledger() {
    let mut bytes = dump(&sample_state());
    bytes.pop();
    let mut state = LedgerState { entries: vec![StateEntry::Account {
        address: Felt::from_u128(9),
        class_hash: Felt::from_u128(9),
        nonce: Felt::from_u128(9),
    }] };
    let before = state.entries.clone();
    let e = load(&mut state, Ok(bytes)).unwrap_err();
    assert!(matches!(e, Error::SerializationError));
    assert_eq!(to_http_error(&e), HttpApiError::GeneralError);
    assert_eq!(state.entries, before);
}

#[test]
fn unknown_entry_tag_is_refused() {
    let mut bytes = dump(&sample_state());
    bytes[16] = 7;
    assert!(matches!(decode(&bytes), Err(Error::SerializationError)));
}

#[test]
fn element_above_the_prime_is_refused() {
    let mut bytes = dump(&sample_state());
    for b in bytes[17 + 16..17 + 32].iter_mut() {
        *b = 0xff;
    }
    assert!(matches!(decode(&bytes), Err(Error::SerializationError)));
}

#[test]
fn io_failure_is_a_general_failure() {
    let mut state = sample_state();
    let e = load(&mut state, Err(Error::IOError("permission denied".to_string()))).unwrap_err();
    assert_eq!(to_http_error(&e), HttpApiError::GeneralError);
    assert_eq!(state.entries, sample_state().entries);
}
