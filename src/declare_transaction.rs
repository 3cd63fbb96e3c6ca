//! Version 1 declare transactions: construction rules and hashing.
use vstd::prelude::*;

use crate::error::{Error, TransactionError};
use crate::felt::{ContractAddress, Felt};
use crate::hash::{
    calculate_transaction_hash_common, declare_prefix_felt, declare_v1_hash,
    validate_declare_selector_felt, values,
};

verus! {

/// A legacy (Cairo 0) contract class, kept as the bytes of its JSON text,
/// which the library stores and restores without reading them.
#[derive(Clone, Debug)]
pub struct Cairo0ContractClass {
    pub raw_json: Vec<u8>,
}

/// The reason given when a version 1 declare transaction carries no fee.
pub open spec fn zero_fee_reason() -> Seq<char> {
    "For declare transaction version 1, max fee cannot be 0"@
}

/// A version 1 declare transaction, with its two cached identifiers.
#[derive(Clone, Debug)]
pub struct DeclareTransactionV1 {
    pub sender_address: ContractAddress,
    pub max_fee: u128,
    pub signature: Vec<Felt>,
    pub nonce: Felt,
    pub version: Felt,
    pub contract_class: Cairo0ContractClass,
    pub class_hash: Option<Felt>,
    pub transaction_hash: Option<Felt>,
    pub chain_id: Felt,
}

impl DeclareTransactionV1 {
    /// Every field element lies in the field, the sender is a valid address
    /// and the fee is not zero.
    pub open spec fn wf(&self) -> bool {
        &&& self.sender_address.wf()
        &&& self.max_fee > 0
        &&& forall|i: int| 0 <= i < self.signature@.len() ==> (#[trigger] self.signature@[i]).wf()
        &&& self.nonce.wf()
        &&& self.version.wf()
        &&& self.chain_id.wf()
        &&& self.class_hash matches Some(c) ==> c.wf()
        &&& self.transaction_hash matches Some(h) ==> h.wf()
    }

    /// The transaction's hash, given the class hash that goes into it.
    pub open spec fn hash_spec(&self, class_hash: nat) -> nat {
        declare_v1_hash(
            self.version.value(),
            self.sender_address.felt_spec().value(),
            self.max_fee as nat,
            self.chain_id.value(),
            class_hash,
        )
    }

    /// The class hash that hashing uses: the precomputed one where present,
    /// else the one derived from the contract class.
    pub open spec fn class_hash_used(&self, derived: Result<Felt, Error>) -> Result<Felt, Error> {
        match self.class_hash {
            Some(c) => Ok(c),
            None => derived,
        }
    }

    /// A version 1 declare transaction; fails with a fee error where
    /// `max_fee` is zero. No hash is computed here.
    pub fn new(
        sender_address: ContractAddress,
        max_fee: u128,
        signature: Vec<Felt>,
        nonce: Felt,
        contract_class: Cairo0ContractClass,
        chain_id: Felt,
    ) -> (r: Result<Self, Error>)
        requires
            sender_address.wf(),
            forall|i: int| 0 <= i < signature@.len() ==> (#[trigger] signature@[i]).wf(),
            nonce.wf(),
            chain_id.wf(),
        ensures
            r is Err <==> max_fee == 0,
            r matches Err(e) ==> e matches Error::TransactionError(
                TransactionError::FeeError(msg),
            ) && msg@ == zero_fee_reason(),
            r matches Ok(tx) ==> {
                &&& tx.wf()
                &&& tx.sender_address == sender_address
                &&& tx.max_fee == max_fee
                &&& tx.signature@ == signature@
                &&& tx.nonce == nonce
                &&& tx.version.value() == 1
                &&& tx.contract_class == contract_class
                &&& tx.class_hash is None
                &&& tx.transaction_hash is None
                &&& tx.chain_id == chain_id
            },
    {
        if max_fee == 0 {
            let reason = String::from_str("For declare transaction version 1, max fee cannot be 0");
            return Err(Error::TransactionError(TransactionError::FeeError(reason)));
        }
        Ok(DeclareTransactionV1 {
            sender_address,
            max_fee,
            signature,
            nonce,
            version: Felt::from_u128(1),
            contract_class,
            class_hash: None,
            transaction_hash: None,
            chain_id,
        })
    }

    pub fn sender_address(&self) -> (r: &ContractAddress)
        ensures
            *r == self.sender_address,
    {
        &self.sender_address
    }

    pub fn class_hash(&self) -> (r: Option<&Felt>)
        ensures
            r matches Some(c) ==> self.class_hash == Some(*c),
            r is None <==> self.class_hash is None,
    {
        self.class_hash.as_ref()
    }

    /// The transaction's hash with `class_hash` as its class hash.
    pub fn hash_with_class_hash(&self, class_hash: Felt) -> (r: Felt)
        requires
            self.wf(),
            class_hash.wf(),
        ensures
            r.wf(),
            r.value() == self.hash_spec(class_hash.value()),
    {
        let additional: Vec<Felt> = vec![class_hash];
        let calldata: Vec<Felt> = Vec::new();
        let r = calculate_transaction_hash_common(
            declare_prefix_felt(),
            self.version,
            self.sender_address.felt(),
            validate_declare_selector_felt(),
            &calldata,
            self.max_fee,
            self.chain_id,
            &additional,
        );
        assert(values(calldata@) =~= seq![]);
        assert(values(additional@) =~= seq![class_hash.value()]);
        r
    }

    /// The transaction's hash. The precomputed class hash is used where the
    /// transaction has one, and `derived_class_hash`, the hash derived from
    /// its contract class, is then ignored.
    pub fn generate_hash(&self, derived_class_hash: Result<Felt, Error>) -> (r: Result<Felt, Error>)
        requires
            self.wf(),
            derived_class_hash matches Ok(c) ==> c.wf(),
        ensures
            match self.class_hash_used(derived_class_hash) {
                Ok(c) => r matches Ok(h) && h.wf() && h.value() == self.hash_spec(c.value()),
                Err(e) => r == Err::<Felt, Error>(e),
            },
    {
        let class_hash = match self.class_hash {
            Some(c) => c,
            None => match derived_class_hash {
                Ok(c) => c,
                Err(e) => return Err(e),
            },
        };
        Ok(self.hash_with_class_hash(class_hash))
    }

    /// The cached transaction hash, computed by `generate_hash` and stored on
    /// the first call; once stored it is returned as it is.
    pub fn transaction_hash(&mut self, derived_class_hash: Result<Felt, Error>) -> (r: Result<Felt, Error>)
        requires
            old(self).wf(),
            derived_class_hash matches Ok(c) ==> c.wf(),
        ensures
            final(self).wf(),
            old(self).transaction_hash matches Some(h) ==> {
                &&& r == Ok::<Felt, Error>(h)
                &&& *final(self) == *old(self)
            },
            old(self).transaction_hash is None ==> match old(self).class_hash_used(derived_class_hash) {
                Ok(c) => r matches Ok(h) && h.value() == old(self).hash_spec(c.value())
                    && *final(self) == (DeclareTransactionV1 { transaction_hash: Some(h), ..*old(self) }),
                Err(e) => r == Err::<Felt, Error>(e) && *final(self) == *old(self),
            },
    {
        if let Some(h) = self.transaction_hash {
            return Ok(h);
        }
        let r = self.generate_hash(derived_class_hash);
        if let Ok(h) = r {
            self.transaction_hash = Some(h);
        }
        r
    }

    /// Hashing is a function of the hashed fields alone: two transactions
    /// that agree on version, sender, fee, chain id and the class hash used
    /// get the same hash, whatever their signature, nonce or contract class,
    /// and however many times it is computed.
    pub proof fn lemma_hash_deterministic(
        a: DeclareTransactionV1,
        b: DeclareTransactionV1,
        class_hash: Felt,
        ha: Felt,
        hb: Felt,
    )
        requires
            a.version == b.version,
            a.sender_address == b.sender_address,
            a.max_fee == b.max_fee,
            a.chain_id == b.chain_id,
            ha.value() == a.hash_spec(class_hash.value()),
            hb.value() == b.hash_spec(class_hash.value()),
        ensures
            ha == hb,
    {
        Felt::lemma_value_injective(ha, hb);
    }

    /// A precomputed class hash overrides the derived one: hashing uses it
    /// as it is, whatever the contract class would give.
    pub proof fn lemma_class_hash_override(
        tx: DeclareTransactionV1,
        c: Felt,
        derived: Result<Felt, Error>,
    )
        requires
            tx.class_hash == Some(c),
        ensures
            tx.class_hash_used(derived) == Ok::<Felt, Error>(c),
    {
    }
}

} // verus!
