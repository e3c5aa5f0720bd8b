//! Elements of the BLS12-377 base field, held as canonical integers.
//!
//! The coordinates of a commitment live here. The library stores and
//! compares them; it does no arithmetic on them.

use vstd::prelude::*;

verus! {

/// The order of the base field, a 377-bit prime.
pub open spec fn base_modulus() -> nat {
    258664426012969094010652733694893533536393512754914660539884262666720468348340822774968888139573360124440321458177nat
}

/// The number of bytes in the encoding of a base-field element.
pub const BASE_FIELD_BYTES: usize = 48;

/// The integer that six little-endian 64-bit limbs spell.
pub open spec fn limbs6_value(l0: u64, l1: u64, l2: u64, l3: u64, l4: u64, l5: u64) -> nat {
    (l0 as nat) + (l1 as nat) * 18446744073709551616nat + (l2 as nat)
        * 340282366920938463463374607431768211456nat + (l3 as nat)
        * 6277101735386680763835789423207666416102355444464034512896nat + (l4 as nat)
        * 115792089237316195423570985008687907853269984665640564039457584007913129639936nat + (
    l5 as nat)
        * 2135987035920910082395021706169552114602704522356652769947041607822219725780640550022962086936576nat
}

/// An element of the base field.
#[derive(Clone, Copy, Debug, PartialEq, Eq, Structural, Hash)]
pub struct BaseField {
    l0: u64,
    l1: u64,
    l2: u64,
    l3: u64,
    l4: u64,
    l5: u64,
}

impl View for BaseField {
    type V = nat;

    closed spec fn view(&self) -> nat {
        limbs6_value(self.l0, self.l1, self.l2, self.l3, self.l4, self.l5)
    }
}

impl BaseField {
    /// Whether the value lies below the modulus. Every `BaseField` that
    /// executable code holds does.
    #[verifier::type_invariant]
    pub open spec fn is_canonical(self) -> bool {
        self@ < base_modulus()
    }

    /// The element with the value `v`, for `v` below two to the 384.
    pub closed spec fn with_value(v: nat) -> BaseField {
        let w: int = 18446744073709551616int;
        BaseField {
            l0: (v as int % w) as u64,
            l1: ((v as int / w) % w) as u64,
            l2: ((v as int / w / w) % w) as u64,
            l3: ((v as int / w / w / w) % w) as u64,
            l4: ((v as int / w / w / w / w) % w) as u64,
            l5: ((v as int / w / w / w / w / w) % w) as u64,
        }
    }

    /// [`Self::with_value`] has the value it is named after.
    pub proof fn lemma_with_value(v: nat)
        requires
            v < 39402006196394479212279040100143613805079739270465446667948293404245721771497210611414266254884915640806627990306816int,
        ensures
            BaseField::with_value(v)@ == v,
    {
        let w: int = 18446744073709551616int;
        let q1 = v as int / w;
        let q2 = q1 / w;
        let q3 = q2 / w;
        let q4 = q3 / w;
        let q5 = q4 / w;
        assert(v == (v as int % w) + w * q1);
        assert(q1 == (q1 % w) + w * q2);
        assert(q2 == (q2 % w) + w * q3);
        assert(q3 == (q3 % w) + w * q4);
        assert(q4 == (q4 % w) + w * q5);
        assert(0 <= q5 < w);
        let r4: int = (q4 % w) + w * q5;
        let r3: int = (q3 % w) + w * r4;
        let r2: int = (q2 % w) + w * r3;
        let r1: int = (q1 % w) + w * r2;
        assert(v == (v as int % w) + w * r1);
    }

    /// The additive identity.
    pub fn zero() -> (r: BaseField)
        ensures
            r@ == 0,
    {
        BaseField { l0: 0, l1: 0, l2: 0, l3: 0, l4: 0, l5: 0 }
    }

    /// The multiplicative identity.
    pub fn one() -> (r: BaseField)
        ensures
            r@ == 1,
    {
        BaseField { l0: 1, l1: 0, l2: 0, l3: 0, l4: 0, l5: 0 }
    }

    /// The element spelled by six little-endian limbs, if they stay below the
    /// modulus.
    pub fn from_limbs(limbs: [u64; 6]) -> (r: Option<BaseField>)
        ensures
            r is Some <==> limbs6_value(limbs[0], limbs[1], limbs[2], limbs[3], limbs[4], limbs[5])
                < base_modulus(),
            r is Some ==> r.unwrap()@ == limbs6_value(
                limbs[0],
                limbs[1],
                limbs[2],
                limbs[3],
                limbs[4],
                limbs[5],
            ),
    {
        let (l0, l1, l2, l3, l4, l5) = (limbs[0], limbs[1], limbs[2], limbs[3], limbs[4], limbs[5]);
        let below_low = l2 < 2230234197602682880 || (l2 == 2230234197602682880 && (l1
            < 1660523435060625408 || (l1 == 1660523435060625408 && l0 < 9586122913090633729)));
        let below = l5 < 121098312706494698 || (l5 == 121098312706494698 && (l4
            < 14284016967150029115 || (l4 == 14284016967150029115 && (l3 < 1883307231910630287 || (
        l3 == 1883307231910630287 && below_low)))));
        proof {
            let w: int = 18446744073709551616;
            let low: int = l0 + w * (l1 + w * l2);
            let q_low: int = 9586122913090633729 + w * (1660523435060625408 + w
                * 2230234197602682880);
            assert(below_low == (low < q_low));
            assert(0 <= low < w * w * w);
            let high: int = l3 + w * (l4 + w * l5);
            let q_high: int = 1883307231910630287 + w * (14284016967150029115 + w
                * 121098312706494698);
            assert(limbs6_value(l0, l1, l2, l3, l4, l5) == low + (w * w * w) * high);
            assert(base_modulus() == q_low + (w * w * w) * q_high);
            assert(below == (high < q_high || (high == q_high && low < q_low)));
        }
        if below {
            Some(BaseField { l0, l1, l2, l3, l4, l5 })
        } else {
            None
        }
    }

    /// The element spelled by six little-endian limbs that stay below the
    /// modulus.
    pub(crate) fn from_canonical_limbs(limbs: [u64; 6]) -> (r: BaseField)
        requires
            limbs6_value(limbs[0], limbs[1], limbs[2], limbs[3], limbs[4], limbs[5])
                < base_modulus(),
        ensures
            r@ == limbs6_value(limbs[0], limbs[1], limbs[2], limbs[3], limbs[4], limbs[5]),
    {
        BaseField {
            l0: limbs[0],
            l1: limbs[1],
            l2: limbs[2],
            l3: limbs[3],
            l4: limbs[4],
            l5: limbs[5],
        }
    }

    /// The six little-endian limbs of the value.
    pub fn to_limbs(&self) -> (r: [u64; 6])
        ensures
            limbs6_value(r[0], r[1], r[2], r[3], r[4], r[5]) == self@,
    {
        [self.l0, self.l1, self.l2, self.l3, self.l4, self.l5]
    }

    /// Two elements with the same value are the same element.
    pub proof fn lemma_view_injective(self, other: BaseField)
        requires
            self@ == other@,
        ensures
            self == other,
    {
        let w: int = 18446744073709551616;
        let a4: int = self.l4 + w * self.l5;
        let b4: int = other.l4 + w * other.l5;
        let a3: int = self.l3 + w * a4;
        let b3: int = other.l3 + w * b4;
        let a2: int = self.l2 + w * a3;
        let b2: int = other.l2 + w * b3;
        let a1: int = self.l1 + w * a2;
        let b1: int = other.l1 + w * b2;
        assert(self@ == self.l0 + w * a1);
        assert(other@ == other.l0 + w * b1);
        assert(a1 == b1 && self.l0 == other.l0);
        assert(a2 == b2 && self.l1 == other.l1);
        assert(a3 == b3 && self.l2 == other.l2);
        assert(a4 == b4 && self.l3 == other.l3);
        assert(self.l4 == other.l4 && self.l5 == other.l5);
    }
}

} // verus!
