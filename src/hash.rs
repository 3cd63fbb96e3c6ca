//! The canonical, domain-separated transaction hashes.
use vstd::prelude::*;

use crate::codec::two_pow_128;
use crate::felt::{pedersen, pedersen_of, Felt};

verus! {

/// The values of a sequence of field elements.
pub open spec fn values(s: Seq<Felt>) -> Seq<nat> {
    s.map_values(|f: Felt| f.value())
}

/// The Pedersen chain over `s`, started from zero.
pub open spec fn pedersen_chain(s: Seq<nat>) -> nat
    decreases s.len(),
{
    if s.len() == 0 {
        0
    } else {
        pedersen_of(pedersen_chain(s.drop_last()), s.last())
    }
}

/// The hash of a sequence of elements: the chain over them, closed with
/// their count.
pub open spec fn hash_on_elements(s: Seq<nat>) -> nat {
    pedersen_of(pedersen_chain(s), s.len())
}

/// The prefix that marks a declare transaction: the ASCII text `declare`.
pub open spec fn declare_prefix() -> nat {
    0x6465636c617265
}

/// The selector of the `__validate_declare__` entry point.
pub open spec fn validate_declare_selector() -> nat {
    (0x289da278a8dc833409cabfdad1581e8nat * two_pow_128()
        + 0xe7d40e42dcaed693fa4008dcdb4963b3nat) as nat
}

/// The common hash of a transaction: prefix, version, sender, entry point,
/// the hash of the calldata, fee and chain id, then the kind's own data.
pub open spec fn transaction_hash_common(
    prefix: nat,
    version: nat,
    sender: nat,
    selector: nat,
    calldata: Seq<nat>,
    max_fee: nat,
    chain_id: nat,
    additional: Seq<nat>,
) -> nat {
    hash_on_elements(
        seq![prefix, version, sender, selector, hash_on_elements(calldata), max_fee, chain_id]
            + additional,
    )
}

/// The hash of a version 1 declare transaction: no calldata, and the class
/// hash as its only additional element.
pub open spec fn declare_v1_hash(
    version: nat,
    sender: nat,
    max_fee: nat,
    chain_id: nat,
    class_hash: nat,
) -> nat {
    transaction_hash_common(
        declare_prefix(),
        version,
        sender,
        validate_declare_selector(),
        seq![],
        max_fee,
        chain_id,
        seq![class_hash],
    )
}

/// The hash of the elements of `elems`.
pub fn compute_hash_on_elements(elems: &Vec<Felt>) -> (r: Felt)
    requires
        forall|i: int| 0 <= i < elems@.len() ==> (#[trigger] elems@[i]).wf(),
    ensures
        r.wf(),
        r.value() == hash_on_elements(values(elems@)),
{
    let mut acc = Felt::from_u128(0);
    let mut i: usize = 0;
    while i < elems.len()
        invariant
            i <= elems@.len(),
            forall|j: int| 0 <= j < elems@.len() ==> (#[trigger] elems@[j]).wf(),
            acc.wf(),
            acc.value() == pedersen_chain(values(elems@.subrange(0, i as int))),
        decreases elems@.len() - i,
    {
        assert(values(elems@.subrange(0, i + 1)).drop_last() =~= values(
            elems@.subrange(0, i as int),
        ));
        acc = pedersen(&acc, &elems[i]);
        i = i + 1;
    }
    assert(elems@.subrange(0, i as int) =~= elems@);
    let count = Felt::from_u128(elems.len() as u128);
    pedersen(&acc, &count)
}

/// The common transaction hash over field elements; see
/// `transaction_hash_common`.
pub fn calculate_transaction_hash_common(
    prefix: Felt,
    version: Felt,
    sender: Felt,
    selector: Felt,
    calldata: &Vec<Felt>,
    max_fee: u128,
    chain_id: Felt,
    additional: &Vec<Felt>,
) -> (r: Felt)
    requires
        prefix.wf(),
        version.wf(),
        sender.wf(),
        selector.wf(),
        chain_id.wf(),
        forall|i: int| 0 <= i < calldata@.len() ==> (#[trigger] calldata@[i]).wf(),
        forall|i: int| 0 <= i < additional@.len() ==> (#[trigger] additional@[i]).wf(),
    ensures
        r.wf(),
        r.value() == transaction_hash_common(
            prefix.value(),
            version.value(),
            sender.value(),
            selector.value(),
            values(calldata@),
            max_fee as nat,
            chain_id.value(),
            values(additional@),
        ),
{
    let calldata_hash = compute_hash_on_elements(calldata);
    let mut data: Vec<Felt> = vec![
        prefix,
        version,
        sender,
        selector,
        calldata_hash,
        Felt::from_u128(max_fee),
        chain_id,
    ];
    let ghost head = data@;
    let mut i: usize = 0;
    while i < additional.len()
        invariant
            i <= additional@.len(),
            data@ == head + additional@.subrange(0, i as int),
            forall|j: int| 0 <= j < additional@.len() ==> (#[trigger] additional@[j]).wf(),
            forall|j: int| 0 <= j < head.len() ==> (#[trigger] head[j]).wf(),
            head.len() == 7,
        decreases additional@.len() - i,
    {
        data.push(additional[i]);
        i = i + 1;
        assert(data@ =~= head + additional@.subrange(0, i as int));
    }
    assert(additional@.subrange(0, i as int) =~= additional@);
    assert forall|j: int| 0 <= j < data@.len() implies (#[trigger] data@[j]).wf() by {
        if j >= 7 {
            assert(data@[j] == additional@[j - 7]);
        }
    }
    let r = compute_hash_on_elements(&data);
    assert(values(data@) =~= seq![
        prefix.value(),
        version.value(),
        sender.value(),
        selector.value(),
        hash_on_elements(values(calldata@)),
        max_fee as nat,
        chain_id.value(),
    ] + values(additional@));
    r
}

/// The prefix of declare transactions as a field element.
pub fn declare_prefix_felt() -> (r: Felt)
    ensures
        r.wf(),
        r.value() == declare_prefix(),
{
    Felt::from_u128(0x6465636c617265)
}

/// The `__validate_declare__` selector as a field element.
pub fn validate_declare_selector_felt() -> (r: Felt)
    ensures
        r.wf(),
        r.value() == validate_declare_selector(),
{
    Felt::from_halves(0x289da278a8dc833409cabfdad1581e8, 0xe7d40e42dcaed693fa4008dcdb4963b3)
}

} // verus!
