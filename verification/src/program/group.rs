//! Points of the twisted Edwards curve over the scalar field of BLS12-377,
//! and the scalars that multiply them.
//!
//! A [`Group`] holds the affine coordinates of a point on the curve
//! `-x^2 + y^2 = 1 + 3021 x^2 y^2`. Scalar multiplication is carried out by
//! `snarkvm_curves`, in the private function at the end of this file, whose
//! contract is assumed.

use crate::field::{field_add, field_decoding, field_mul, le_bytes, limbs_value, Field, FieldError};
use crate::program::bits::ToBits;
use snarkvm_curves::edwards_bls12::{EdwardsAffine, Fq, Fr};
use snarkvm_curves::{AffineCurve, ProjectiveCurve};
use snarkvm_fields::PrimeField;
use snarkvm_utilities::BigInteger256;
use vstd::prelude::*;

verus! {

/// The order of the prime-order subgroup of the curve, a 251-bit prime.
pub open spec fn scalar_modulus() -> nat {
    2111115437357092606062206234695386632838870926408408195193685246394721360383nat
}

/// The coefficient `d` of the curve.
pub open spec fn edwards_d() -> nat {
    3021
}

/// Whether `(x, y)` satisfies the curve equation, written without the
/// subtraction: `y^2 = 1 + d x^2 y^2 + x^2` in the field.
pub open spec fn on_curve(x: nat, y: nat) -> bool {
    field_mul(y, y) == field_add(
        field_add(1, field_mul(edwards_d(), field_mul(field_mul(x, x), field_mul(y, y)))),
        field_mul(x, x),
    )
}

/// The affine coordinates of the product of the point `(x, y)` and `scalar`.
pub uninterp spec fn scalar_mul(x: nat, y: nat, scalar: nat) -> (nat, nat);

/// The point of the curve with the x-coordinate `x` and the larger of the two
/// possible y-coordinates where `greatest` is set, the smaller where it is
/// not, if the curve has a point with that x-coordinate.
pub uninterp spec fn recovered(x: nat, greatest: bool) -> Option<(nat, nat)>;

/// Whether the point `(x, y)` of the curve lies in the subgroup of prime
/// order.
pub uninterp spec fn in_subgroup(x: nat, y: nat) -> bool;

/// The point of the prime-order subgroup with the x-coordinate `x`: of the
/// two points of the curve with that x-coordinate, the one with the larger
/// y-coordinate if it lies in the subgroup, else the other if that one does.
pub open spec fn subgroup_point(x: nat) -> Option<(nat, nat)> {
    if recovered(x, true) is Some && in_subgroup(
        recovered(x, true).unwrap().0,
        recovered(x, true).unwrap().1,
    ) {
        recovered(x, true)
    } else if recovered(x, false) is Some && in_subgroup(
        recovered(x, false).unwrap().0,
        recovered(x, false).unwrap().1,
    ) {
        recovered(x, false)
    } else {
        None
    }
}

/// Why bytes or a coordinate are no group element.
#[derive(Clone, Copy, Debug, PartialEq, Eq, Structural)]
pub enum GroupError {
    /// The bytes are no field element.
    InvalidField(FieldError),
    /// No point of the prime-order subgroup has the x-coordinate.
    NoSuchPoint,
}

/// A scalar: an integer below the order of the subgroup.
#[derive(Clone, Copy, Debug, PartialEq, Eq, Structural, Hash)]
pub struct Scalar {
    l0: u64,
    l1: u64,
    l2: u64,
    l3: u64,
}

impl View for Scalar {
    type V = nat;

    closed spec fn view(&self) -> nat {
        limbs_value(self.l0, self.l1, self.l2, self.l3)
    }
}

impl Scalar {
    /// Whether the value lies below the order of the subgroup. Every `Scalar`
    /// that executable code holds does.
    #[verifier::type_invariant]
    pub open spec fn is_canonical(self) -> bool {
        self@ < scalar_modulus()
    }

    /// The scalar that a 64-bit integer names.
    pub fn from_u64(value: u64) -> (r: Scalar)
        ensures
            r@ == value,
    {
        Scalar { l0: value, l1: 0, l2: 0, l3: 0 }
    }

    /// The scalar spelled by four little-endian limbs, if they stay below the
    /// order of the subgroup.
    pub fn from_limbs(l0: u64, l1: u64, l2: u64, l3: u64) -> (r: Option<Scalar>)
        ensures
            r is Some <==> limbs_value(l0, l1, l2, l3) < scalar_modulus(),
            r is Some ==> r.unwrap()@ == limbs_value(l0, l1, l2, l3),
    {
        let below = l3 < 336320092672043349 || (l3 == 336320092672043349 && (l2
            < 10965441865914903552 || (l2 == 10965441865914903552 && (l1 < 5950279507993463550 || (
        l1 == 5950279507993463550 && l0 < 13356249993388743167)))));
        if below {
            Some(Scalar { l0, l1, l2, l3 })
        } else {
            None
        }
    }

    /// The four little-endian limbs of the value.
    pub fn to_limbs(&self) -> (r: [u64; 4])
        ensures
            limbs_value(r[0], r[1], r[2], r[3]) == self@,
    {
        [self.l0, self.l1, self.l2, self.l3]
    }
}

/// A point on the curve.
#[derive(Clone, Copy, Debug, PartialEq, Eq, Structural, Hash)]
pub struct Group {
    x: Field,
    y: Field,
}

impl Group {
    /// Whether the coordinates satisfy the curve equation. Every `Group` that
    /// executable code holds does.
    #[verifier::type_invariant]
    pub closed spec fn is_on_curve(self) -> bool {
        on_curve(self.x@, self.y@)
    }

    /// The x-coordinate, in specifications.
    pub closed spec fn x(self) -> nat {
        self.x@
    }

    /// The y-coordinate, in specifications.
    pub closed spec fn y(self) -> nat {
        self.y@
    }

    /// The point with the coordinates `(x, y)`, if it lies on the curve.
    /// Membership in the prime-order subgroup is not tested.
    pub fn from_coordinates(x: Field, y: Field) -> (r: Option<Group>)
        ensures
            r is Some <==> on_curve(x@, y@),
            r is Some ==> r.unwrap().x() == x@ && r.unwrap().y() == y@,
    {
        let x2 = x.mul(&x);
        let y2 = y.mul(&y);
        let d = Field::from_u64(3021);
        let right = Field::one().add(&d.mul(&x2.mul(&y2))).add(&x2);
        proof {
            if y2@ == right@ {
                y2.lemma_view_injective(right);
            }
        }
        if y2 == right {
            Some(Group { x, y })
        } else {
            None
        }
    }

    /// The neutral element, `(0, 1)`.
    pub fn zero() -> (r: Group)
        ensures
            r.x() == 0,
            r.y() == 1,
    {
        let (x, y) = (Field::zero(), Field::one());
        assert(on_curve(0, 1)) by {
            assert(1nat * 1nat == 1 && 0nat * 0nat == 0 && 0nat * 1nat == 0 && 3021nat * 0nat == 0)
                by (nonlinear_arith);
            assert(field_mul(1, 1) == 1);
            assert(field_mul(0, 0) == 0);
            assert(field_mul(0, 1) == 0);
            assert(field_mul(3021, 0) == 0);
            assert(field_add(1, 0) == 1);
        }
        Group { x, y }
    }

    /// Whether the point is the neutral element.
    pub fn is_zero(&self) -> (r: bool)
        ensures
            r == (self.x() == 0 && self.y() == 1),
    {
        self.x.is_zero() && self.y.is_one()
    }

    /// The x-coordinate.
    pub fn to_x_coordinate(&self) -> (r: Field)
        ensures
            r@ == self.x(),
    {
        self.x
    }

    /// The y-coordinate.
    pub fn to_y_coordinate(&self) -> (r: Field)
        ensures
            r@ == self.y(),
    {
        self.y
    }

    /// The coordinates, in specifications.
    pub open spec fn coordinates(self) -> (nat, nat) {
        (self.x(), self.y())
    }

    /// Whether the point lies in the subgroup of prime order.
    pub fn is_in_subgroup(&self) -> (r: bool)
        ensures
            r == in_subgroup(self.x(), self.y()),
    {
        edwards_in_subgroup(self)
    }

    /// The point of the prime-order subgroup with the given x-coordinate.
    pub fn from_x_coordinate(x_coordinate: Field) -> (r: Result<Group, GroupError>)
        ensures
            match subgroup_point(x_coordinate@) {
                Some(point) => r is Ok && r.unwrap().coordinates() == point,
                None => r == Err::<Group, GroupError>(GroupError::NoSuchPoint),
            },
            r is Ok ==> r.unwrap().x() == x_coordinate@,
    {
        if let Some(point) = edwards_from_x(&x_coordinate, true) {
            if point.is_in_subgroup() {
                return Ok(point);
            }
        }
        if let Some(point) = edwards_from_x(&x_coordinate, false) {
            if point.is_in_subgroup() {
                return Ok(point);
            }
        }
        Err(GroupError::NoSuchPoint)
    }

    /// Appends the 32 bytes of the x-coordinate to `writer`.
    pub fn write_le(&self, writer: &mut Vec<u8>)
        ensures
            final(writer)@ == old(writer)@ + le_bytes(self.x(), 32),
    {
        self.x.write_le(writer)
    }

    /// Reads the group from the first 32 bytes of a buffer, which spell its
    /// x-coordinate.
    pub fn read_le(bytes: &[u8]) -> (r: Result<Group, GroupError>)
        ensures
            match field_decoding(bytes@) {
                Some(x) => match subgroup_point(x) {
                    Some(point) => r is Ok && r.unwrap().coordinates() == point,
                    None => r == Err::<Group, GroupError>(GroupError::NoSuchPoint),
                },
                None => r == Err::<Group, GroupError>(
                    GroupError::InvalidField(
                        if bytes@.len() < 32 {
                            FieldError::NotEnoughBytes
                        } else {
                            FieldError::InvalidFieldElement
                        },
                    ),
                ),
            },
            r is Ok ==> field_decoding(bytes@) == Some(r.unwrap().x()),
    {
        match Field::read_le(bytes) {
            Ok(x) => Group::from_x_coordinate(x),
            Err(e) => Err(GroupError::InvalidField(e)),
        }
    }

    /// The product of the point and `scalar`.
    pub fn mul(&self, scalar: &Scalar) -> (r: Group)
        ensures
            (r.x(), r.y()) == scalar_mul(self.x(), self.y(), scalar@),
    {
        edwards_mul(self, scalar)
    }
}

impl ToBits for Group {
    /// The bits of the x-coordinate.
    closed spec fn bits_le(&self) -> Seq<bool> {
        self.x.bits_le()
    }

    /// The bits of the x-coordinate.
    closed spec fn bits_be(&self) -> Seq<bool> {
        self.x.bits_be()
    }

    fn to_bits_le(&self) -> (r: Vec<bool>) {
        self.x.to_bits_le()
    }

    fn to_bits_be(&self) -> (r: Vec<bool>) {
        self.x.to_bits_be()
    }
}

/// The address of an account: a point on the curve.
#[derive(Clone, Copy, Debug, PartialEq, Eq, Structural, Hash)]
pub struct Address(pub Group);

impl Address {
    /// The address that `group` stands for.
    pub fn new(group: Group) -> (r: Address)
        ensures
            r.0 == group,
    {
        Address(group)
    }

    /// The point that the address stands for.
    pub fn to_group(&self) -> (r: Group)
        ensures
            r == self.0,
    {
        self.0
    }
}

/// The coordinates of a point, where there is one.
pub open spec fn coordinates_of(point: Option<Group>) -> Option<(nat, nat)> {
    match point {
        Some(p) => Some(p.coordinates()),
        None => None,
    }
}

/// `EdwardsAffine::from_x_coordinate`: the point of the curve with the given
/// x-coordinate and the larger or smaller y-coordinate, where the curve has
/// one. The point that comes back has the x-coordinate that was handed in.
#[verifier::external_body]
fn edwards_from_x(x: &Field, greatest: bool) -> (r: Option<Group>)
    ensures
        coordinates_of(r) == recovered(x@, greatest),
        r is Some ==> r.unwrap().x@ == x@,
{
    let x = Fq::from_bigint(BigInteger256(x.to_limbs())).unwrap();
    EdwardsAffine::from_x_coordinate(x, greatest).map(|p| Group {
        x: Field::from_canonical_limbs(p.x.to_bigint().0),
        y: Field::from_canonical_limbs(p.y.to_bigint().0),
    })
}

/// `EdwardsAffine::is_in_correct_subgroup_assuming_on_curve`, on the point
/// that `from_coordinates_unchecked` makes of the two coordinates: whether
/// the point, which lies on the curve, lies in the subgroup of prime order.
#[verifier::external_body]
fn edwards_in_subgroup(point: &Group) -> (r: bool)
    ensures
        r == in_subgroup(point.x@, point.y@),
{
    let x = Fq::from_bigint(BigInteger256(point.x.to_limbs())).unwrap();
    let y = Fq::from_bigint(BigInteger256(point.y.to_limbs())).unwrap();
    EdwardsAffine::from_coordinates_unchecked((x, y)).is_in_correct_subgroup_assuming_on_curve()
}

/// `EdwardsAffine`'s `Mul` by an `Fr`, followed by `to_affine`, on the point
/// that `from_coordinates_unchecked` makes of the two coordinates: the affine
/// coordinates of the product, which lies on the curve as `point` does.
#[verifier::external_body]
fn edwards_mul(point: &Group, scalar: &Scalar) -> (r: Group)
    ensures
        (r.x@, r.y@) == scalar_mul(point.x@, point.y@, scalar@),
{
    let x = Fq::from_bigint(BigInteger256(point.x.to_limbs())).unwrap();
    let y = Fq::from_bigint(BigInteger256(point.y.to_limbs())).unwrap();
    let s = Fr::from_bigint(BigInteger256(scalar.to_limbs())).unwrap();
    let product = (EdwardsAffine::from_coordinates_unchecked((x, y)) * s).to_affine();
    Group {
        x: Field::from_canonical_limbs(product.x.to_bigint().0),
        y: Field::from_canonical_limbs(product.y.to_bigint().0),
    }
}

} // verus!
