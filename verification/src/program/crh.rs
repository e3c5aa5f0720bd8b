//! Collision-resistant hashes onto the curve, and their compressed form.

use crate::field::Field;
use crate::program::group::{coordinates_of, Group};
use vstd::prelude::*;

verus! {

/// Why a hash could not be computed.
#[derive(Clone, Copy, Debug, PartialEq, Eq, Structural)]
pub enum CRHError {
    /// The hash function refused its input.
    IncorrectInputLength,
}

/// A collision-resistant hash function whose digests are points of the
/// curve.
///
/// The function has a specification-level name, so that contracts can say
/// which digest was compressed; `hash` promises to compute the function of
/// that name.
///
/// A verified implementation defines `digest` as well as `hash`: the
/// placeholder body says nothing of the values, so with it left in place the
/// promise of `hash` cannot be proved. Only an implementation in code that
/// is not verified can leave the placeholder and supply `hash` alone; what
/// is proved through the trait then holds of it only as far as `hash` is a
/// function of its input.
pub trait GroupCRH {
    /// The coordinates of the digest of `input`, where the function accepts
    /// it.
    closed spec fn digest(&self, input: Seq<u8>) -> Option<(nat, nat)> {
        arbitrary()
    }

    /// Computes [`Self::digest`].
    fn hash(&self, input: &[u8]) -> (r: Option<Group>)
        ensures
            coordinates_of(r) == self.digest(input@),
    ;
}

/// A hash function onto the curve, compressed to the x-coordinate of its
/// digest.
#[derive(Clone, Debug, PartialEq, Eq)]
pub struct BHPCompressedCRH<B: GroupCRH> {
    /// The hash function that is compressed.
    pub bhp: B,
}

impl<B: GroupCRH> BHPCompressedCRH<B> {
    /// The compressed form of `bhp`.
    pub fn from(bhp: B) -> (r: BHPCompressedCRH<B>)
        ensures
            r.bhp == bhp,
    {
        BHPCompressedCRH { bhp }
    }

    /// The x-coordinate of the digest of `input`.
    pub fn hash(&self, input: &[u8]) -> (r: Result<Field, CRHError>)
        ensures
            match self.bhp.digest(input@) {
                Some(point) => r is Ok && r.unwrap()@ == point.0,
                None => r == Err::<Field, CRHError>(CRHError::IncorrectInputLength),
            },
    {
        match self.bhp.hash(input) {
            Some(affine) => Ok(affine.to_x_coordinate()),
            None => Err(CRHError::IncorrectInputLength),
        }
    }

    /// The hash function that is compressed.
    pub fn parameters(&self) -> (r: &B)
        ensures
            *r == self.bhp,
    {
        &self.bhp
    }
}

} // verus!
