use starknet_devnet_core::declare_transaction::{Cairo0ContractClass, DeclareTransactionV1};
use starknet_devnet_core::error::{ConversionError, Error, TransactionError};
use starknet_devnet_core::felt::{ContractAddress, Felt};
use starknet_devnet_core::hash::compute_hash_on_elements;

fn felt_from_hex(hex: &str) -> Felt {
    let digits = hex.trim_start_matches("0x");
    let padded = format!("{:0>64}", digits);
    let mut bytes = [0u8; 32];
    for i in 0..32 {
        bytes[i] = u8::from_str_radix(&padded[2 * i..2 * i + 2], 16).unwrap();
    }
    Felt::new(bytes).unwrap()
}

fn dummy_felt() -> Felt {
    Felt::from_u128(0xDD10)
}

fn dummy_contract_address() -> ContractAddress {
    ContractAddress::new(Felt::from_u128(0xADD4E55)).unwrap()
}

fn dummy_cairo_0_contract_class() -> Cairo0ContractClass {
    Cairo0ContractClass { raw_json: b"{\"abi\": [], \"program\": {}}".to_vec() }
}

fn goerli_chain_id() -> Felt {
    // The ASCII text "SN_GOERLI".
    Felt::from_u128(0x534e5f474f45524c49)
}

fn declare_with_fee(max_fee: u128) -> DeclareTransactionV1 {
    DeclareTransactionV1::new(
        dummy_contract_address(),
        max_fee,
        vec![],
        dummy_felt(),
        dummy_cairo_0_contract_class(),
        goerli_chain_id(),
    )
    .unwrap()
}

#[test]
fn declare_transaction_v1_with_max_fee_zero_should_return_an_error() {
    let result = DeclareTransactionV1::new(
        dummy_contract_address(),
        0,
        vec![],
        dummy_felt(),
        dummy_cairo_0_contract_class().into(),
        dummy_felt(),
    );

    assert!(result.is_err());
    match result.err().unwrap() {
        Error::TransactionError(TransactionError::FeeError(msg)) => {
            assert_eq!(msg, "For declare transaction version 1, max fee cannot be 0")
        }
        _ => panic!("Wrong error type"),
    }
}

#[test]
fn zero_fee_is_refused_whatever_the_other_fields() {
    let result = DeclareTransactionV1::new(
        ContractAddress::new(Felt::from_u128(1)).unwrap(),
        0,
        vec![Felt::from_u128(7), Felt::from_u128(8)],
        Felt::from_u128(99),
        Cairo0ContractClass { raw_json: vec![] },
        goerli_chain_id(),
    );
    assert!(matches!(result, Err(Error::TransactionError(TransactionError::FeeError(_)))));
}

#[test]
fn construction_sets_version_one_and_no_cached_hashes() {
    let tx = declare_with_fee(5);
    assert_eq!(tx.version, Felt::from_u128(1));
    assert_eq!(tx.max_fee, 5);
    assert!(tx.class_hash().is_none());
    assert!(tx.transaction_hash.is_none());
    assert_eq!(*tx.sender_address(), dummy_contract_address());
}

#[test]
fn hash_on_no_elements_is_pedersen_of_zeros() {
    let h = compute_hash_on_elements(&vec![]);
    assert_eq!(h, felt_from_hex("0x49ee3eba8c1600700ee1b87eb599f16716b0b1022947733551fde4050ca6804"));
}

#[test]
fn hash_on_three_elements() {
    let elems = vec![Felt::from_u128(1), Felt::from_u128(2), Felt::from_u128(3)];
    let h = compute_hash_on_elements(&elems);
    assert_eq!(h, felt_from_hex("0xf9d95fbf356fbeda26538c92f7040abe51bf142350f73c9ee5ba7c660bae71"));
}

#[test]
fn declare_v1_hash_matches_vector() {
    let tx = declare_with_fee(1);
    let h = tx.generate_hash(Ok(Felt::from_u128(0xC1A55))).unwrap();
    assert_eq!(h, felt_from_hex("0x1bc0d8477f1f927cc7aa104b958da9e35b236c440d673adab50460667cef08"));
}

#[test]
fn hashing_twice_gives_the_same_hash() {
    let tx = declare_with_fee(1);
    let a = tx.generate_hash(Ok(Felt::from_u128(0x1234))).unwrap();
    let b = tx.generate_hash(Ok(Felt::from_u128(0x1234))).unwrap();
    assert_eq!(a, b);
    let mut other = declare_with_fee(1);
    other.signature = vec![Felt::from_u128(3)];
    other.nonce = Felt::from_u128(42);
    assert_eq!(other.generate_hash(Ok(Felt::from_u128(0x1234))).unwrap(), a);
    assert_eq!(a, felt_from_hex("0x673446919f9bedb450f636a06a87b54afe27ebfda6e0d5293936f2f251aa381"));
}

#[test]
fn precomputed_class_hash_overrides_derived_one() {
    let mut tx = declare_with_fee(1);
    tx.class_hash = Some(Felt::from_u128(0xC1A55));
    let h = tx.generate_hash(Ok(Felt::from_u128(0x1234))).unwrap();
    assert_eq!(h, felt_from_hex("0x1bc0d8477f1f927cc7aa104b958da9e35b236c440d673adab50460667cef08"));
    let h2 = tx.generate_hash(Err(Error::TransactionError(TransactionError::ClassHashError(
        "malformed".to_string(),
    ))));
    assert_eq!(h2.unwrap(), h);
    assert_eq!(tx.class_hash(), Some(&Felt::from_u128(0xC1A55)));
}

#[test]
fn failed_class_hash_derivation_is_reported() {
    let tx = declare_with_fee(1);
    let r = tx.generate_hash(Err(Error::TransactionError(TransactionError::ClassHashError(
        "malformed".to_string(),
    ))));
    assert!(matches!(r, Err(Error::TransactionError(TransactionError::ClassHashError(_)))));
}

#[test]
fn transaction_hash_is_computed_once_and_cached() {
    let mut tx = declare_with_fee(1);
    let first = tx.transaction_hash(Ok(Felt::from_u128(0xC1A55))).unwrap();
    assert_eq!(tx.transaction_hash, Some(first));
    let second = tx.transaction_hash(Ok(Felt::from_u128(0x1234))).unwrap();
    assert_eq!(first, second);
}

#[test]
fn felt_bytes_must_lie_below_the_prime() {
    let mut prime = [0u8; 32];
    prime[0] = 0x08;
    prime[7] = 0x11;
    prime[31] = 0x01;
    assert!(matches!(Felt::new(prime), Err(ConversionError::FromByteArrayError)));
    let mut below = prime;
    below[31] = 0x00;
    assert!(Felt::new(below).is_ok());
    assert!(matches!(Felt::new([0xff; 32]), Err(ConversionError::FromByteArrayError)));
    let mut one = [0u8; 32];
    one[31] = 1;
    assert_eq!(Felt::new(one).unwrap(), Felt::from_u128(1));
}

#[test]
fn contract_address_range() {
    assert!(matches!(
        ContractAddress::new(Felt::from_u128(0)),
        Err(ConversionError::InvalidContractAddress)
    ));
    let mut top = [0u8; 32];
    top[0] = 0x08;
    assert!(matches!(
        ContractAddress::new(Felt::new(top).unwrap()),
        Err(ConversionError::InvalidContractAddress)
    ));
    let below_top = [0x07, 0xff, 0xff, 0xff, 0xff, 0xff, 0xff, 0xff, 0xff, 0xff, 0xff, 0xff, 0xff, 0xff, 0xff, 0xff,
        0xff, 0xff, 0xff, 0xff, 0xff, 0xff, 0xff, 0xff, 0xff, 0xff, 0xff, 0xff, 0xff, 0xff, 0xff, 0xff];
    let a = ContractAddress::new(Felt::new(below_top).unwrap()).unwrap();
    assert_eq!(a.felt(), Felt::new(below_top).unwrap());
}
