//! The Poseidon hash over base-field elements, as Starknet defines it for
//! arrays.
use crate::field::BaseField;
use starknet_types_core::felt::Felt;
use starknet_types_core::hash::{Poseidon, StarkHash};
use vstd::prelude::*;

verus! {

/// The values of a sequence of base-field elements.
pub open spec fn values(s: Seq<BaseField>) -> Seq<int> {
    s.map_values(|e: BaseField| e.val())
}

/// The Poseidon array hash of a sequence of field values.
pub uninterp spec fn poseidon_of(s: Seq<int>) -> int;

/// The Poseidon hash of the elements, in order.
pub fn poseidon_hash(elements: &Vec<BaseField>) -> (r: BaseField)
    ensures
        r.val() == poseidon_of(values(elements@)),
{
    felt_poseidon_many(elements)
}

/// Relies on `Poseidon::hash_array`, whose result depends on the elements'
/// values alone.
#[verifier::external_body]
fn felt_poseidon_many(elements: &Vec<BaseField>) -> (r: BaseField)
    ensures
        r.val() == poseidon_of(values(elements@)),
{
    let felts: Vec<Felt> = elements.iter().map(|e| Felt::from_bytes_be(&e.bytes)).collect();
    BaseField { bytes: Poseidon::hash_array(&felts).to_bytes_be() }
}

} // verus!
