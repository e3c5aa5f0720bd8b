//! The hash functions that a network fixes.

use crate::field::Field;
use crate::r1cs::constraint_checker::values;
use vstd::prelude::*;

verus! {

/// The hash functions and domain separators of one network.
///
/// The library computes with whatever functions the network supplies. Each
/// function has a specification-level name, so that contracts can say which
/// input was hashed; the methods promise to compute the function of that
/// name.
///
/// A verified implementation defines the three names as well as the three
/// methods: the placeholder bodies say nothing of the values, so with them
/// left in place none of the methods' promises can be proved. Only an
/// implementation in code that is not verified can leave the placeholders
/// and supply the methods alone; what is proved through the trait then holds
/// of it only as far as its methods are functions of their inputs.
pub trait Network {
    /// The BHP hash with a 1024-bit input window of `input`, where the hash
    /// accepts it.
    closed spec fn bhp1024(input: Seq<bool>) -> Option<nat> {
        arbitrary()
    }

    /// The first `num_outputs` outputs of the Poseidon hash with rate 8 on
    /// `input`.
    closed spec fn psd8_many(input: Seq<nat>, num_outputs: nat) -> Seq<nat> {
        arbitrary()
    }

    /// The domain separator of plaintext encryption.
    closed spec fn encryption_domain_value() -> nat {
        arbitrary()
    }

    /// Computes [`Self::bhp1024`].
    fn hash_bhp1024(input: &Vec<bool>) -> (r: Option<Field>)
        ensures
            r is Some <==> Self::bhp1024(input@) is Some,
            r is Some ==> r.unwrap()@ == Self::bhp1024(input@).unwrap(),
    ;

    /// Computes [`Self::psd8_many`], which has `num_outputs` elements.
    fn hash_many_psd8(input: &Vec<Field>, num_outputs: u16) -> (r: Vec<Field>)
        ensures
            r@.len() == num_outputs,
            values(r@) == Self::psd8_many(values(input@), num_outputs as nat),
    ;

    /// Returns [`Self::encryption_domain_value`].
    fn encryption_domain() -> (r: Field)
        ensures
            r@ == Self::encryption_domain_value(),
    ;
}

} // verus!
