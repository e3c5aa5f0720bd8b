//! Labelled polynomials, as the prover hands them to the commitment scheme.

use crate::field::Field;
use crate::program::plaintext::copy_fields;
use crate::snark::labels::same_text;
use vstd::prelude::*;

verus! {

/// What the commitment scheme has to know of a polynomial besides its
/// coefficients.
#[derive(Clone, Debug, PartialEq, Eq)]
pub struct PolynomialInfo {
    /// The label of the polynomial.
    pub label: String,
    /// The bound on the degree that is enforced, where one is.
    pub degree_bound: Option<usize>,
    /// The number of evaluations that the commitment hides, where it hides
    /// any.
    pub hiding_bound: Option<usize>,
}

/// What a [`PolynomialInfo`] holds, as mathematics.
pub struct InfoView {
    pub label: Seq<char>,
    pub degree_bound: Option<usize>,
    pub hiding_bound: Option<usize>,
}

impl View for PolynomialInfo {
    type V = InfoView;

    open spec fn view(&self) -> InfoView {
        InfoView {
            label: self.label@,
            degree_bound: self.degree_bound,
            hiding_bound: self.hiding_bound,
        }
    }
}

impl PolynomialInfo {
    /// The information with the given parts.
    pub fn new(label: String, degree_bound: Option<usize>, hiding_bound: Option<usize>) -> (r:
        PolynomialInfo)
        ensures
            r@ == (InfoView { label: label@, degree_bound, hiding_bound }),
    {
        PolynomialInfo { label, degree_bound, hiding_bound }
    }

    /// Whether the two hold the same label and the same bounds.
    pub fn same(&self, other: &PolynomialInfo) -> (r: bool)
        ensures
            r == (self@ == other@),
    {
        same_text(self.label.as_str(), other.label.as_str()) && same_bound(
            &self.degree_bound,
            &other.degree_bound,
        ) && same_bound(&self.hiding_bound, &other.hiding_bound)
    }

    /// A copy.
    pub fn duplicate(&self) -> (r: PolynomialInfo)
        ensures
            r@ == self@,
    {
        PolynomialInfo {
            label: self.label.clone(),
            degree_bound: self.degree_bound,
            hiding_bound: self.hiding_bound,
        }
    }
}

/// Whether the two bounds are the same.
pub fn same_bound(left: &Option<usize>, right: &Option<usize>) -> (r: bool)
    ensures
        r == (*left == *right),
{
    match (left, right) {
        (Some(a), Some(b)) => *a == *b,
        (None, None) => true,
        _ => false,
    }
}

/// The views of a list of informations.
pub open spec fn infos(list: Seq<PolynomialInfo>) -> Seq<InfoView> {
    Seq::new(list.len(), |i: int| list[i]@)
}

/// No label is declared twice, as in a map that is keyed by label.
pub open spec fn labelled_once(list: Seq<InfoView>) -> bool {
    forall|i: int, j: int|
        #![trigger list[i], list[j]]
        0 <= i < list.len() && 0 <= j < list.len() && list[i].label == list[j].label ==> i == j
}

/// The information that the list declares for `label`, where it declares
/// one. In a list that declares no label twice this is the one entry with
/// the label, as [`lemma_declared_entry`] shows.
pub open spec fn declared(list: Seq<InfoView>, label: Seq<char>) -> Option<InfoView>
    decreases list.len(),
{
    if list.len() == 0 {
        None
    } else if list.last().label == label {
        Some(list.last())
    } else {
        declared(list.drop_last(), label)
    }
}

/// Whether the list declares, for the label of `info`, exactly `info`.
pub open spec fn is_declared(info: InfoView, list: Seq<InfoView>) -> bool {
    declared(list, info.label) == Some(info)
}

/// In a list that declares no label twice, what is declared for the label of
/// an entry is that entry, wherever in the list it stands.
pub proof fn lemma_declared_entry(list: Seq<InfoView>, i: int)
    requires
        labelled_once(list),
        0 <= i < list.len(),
    ensures
        declared(list, list[i].label) == Some(list[i]),
    decreases list.len(),
{
    if i < list.len() - 1 {
        let front = list.drop_last();
        assert(list[list.len() - 1].label != list[i].label);
        assert forall|a: int, b: int|
            #![trigger front[a], front[b]]
            0 <= a < front.len() && 0 <= b < front.len() && front[a].label
                == front[b].label implies a == b by {
            assert(list[a].label == list[b].label);
        }
        lemma_declared_entry(front, i);
    }
}

/// Returns whether [`labelled_once`] holds of the list.
pub fn is_labelled_once(list: &Vec<PolynomialInfo>) -> (r: bool)
    ensures
        r == labelled_once(infos(list@)),
{
    let ghost all = infos(list@);
    let mut i: usize = 0;
    while i < list.len()
        invariant
            i <= list@.len(),
            all == infos(list@),
            forall|a: int, b: int|
                #![trigger all[a], all[b]]
                0 <= a < i && 0 <= b < a ==> all[a].label != all[b].label,
        decreases list@.len() - i,
    {
        let mut j: usize = 0;
        while j < i
            invariant
                j <= i,
                i < list@.len(),
                all == infos(list@),
                forall|b: int| 0 <= b < j ==> (#[trigger] all[b]).label != all[i as int].label,
            decreases i - j,
        {
            if same_text(list[i].label.as_str(), list[j].label.as_str()) {
                assert(all[i as int].label == all[j as int].label);
                return false;
            }
            j += 1;
        }
        i += 1;
    }
    proof {
        assert forall|a: int, b: int|
            #![trigger all[a], all[b]]
            0 <= a < all.len() && 0 <= b < all.len() && all[a].label == all[b].label implies a
            == b by {
            if b < a {
                assert(all[a].label != all[b].label);
            } else if a < b {
                assert(all[b].label != all[a].label);
            }
        }
    }
    true
}

/// Returns [`is_declared`].
pub fn info_matches(info: &PolynomialInfo, list: &Vec<PolynomialInfo>) -> (r: bool)
    requires
        labelled_once(infos(list@)),
    ensures
        r == is_declared(info@, infos(list@)),
{
    let ghost all = infos(list@);
    let mut i: usize = list.len();
    assert(all.take(i as int) =~= all);
    while i > 0
        invariant
            i <= list@.len(),
            all == infos(list@),
            declared(all, info@.label) == declared(all.take(i as int), info@.label),
        decreases i,
    {
        i -= 1;
        proof {
            let here = all.take(i + 1);
            assert(here.drop_last() =~= all.take(i as int));
            assert(here.last() == all[i as int]);
        }
        if same_text(list[i].label.as_str(), info.label.as_str()) {
            return list[i].same(info);
        }
    }
    false
}

/// A polynomial in coefficient form, with its label and bounds.
#[derive(Clone, Debug, PartialEq, Eq)]
pub struct LabeledPolynomial {
    /// The label and the bounds.
    pub info: PolynomialInfo,
    /// The coefficients, lowest degree first.
    pub polynomial: Vec<Field>,
}

/// What a [`LabeledPolynomial`] holds, as mathematics.
pub struct PolynomialView {
    pub info: InfoView,
    pub coefficients: Seq<Field>,
}

impl View for LabeledPolynomial {
    type V = PolynomialView;

    open spec fn view(&self) -> PolynomialView {
        PolynomialView { info: self.info@, coefficients: self.polynomial@ }
    }
}

impl LabeledPolynomial {
    /// The polynomial with the given label, bounds and coefficients.
    pub fn new(
        label: String,
        polynomial: Vec<Field>,
        degree_bound: Option<usize>,
        hiding_bound: Option<usize>,
    ) -> (r: LabeledPolynomial)
        ensures
            r@ == (PolynomialView {
                info: InfoView { label: label@, degree_bound, hiding_bound },
                coefficients: polynomial@,
            }),
    {
        LabeledPolynomial { info: PolynomialInfo::new(label, degree_bound, hiding_bound), polynomial }
    }

    /// The label and the bounds.
    pub fn info(&self) -> (r: &PolynomialInfo)
        ensures
            r@ == self@.info,
    {
        &self.info
    }

    /// The label.
    pub fn label(&self) -> (r: &String)
        ensures
            r@ == self@.info.label,
    {
        &self.info.label
    }

    /// A copy.
    pub fn duplicate(&self) -> (r: LabeledPolynomial)
        ensures
            r@ == self@,
    {
        LabeledPolynomial { info: self.info.duplicate(), polynomial: copy_fields(&self.polynomial) }
    }

    /// The same polynomial, written in the monomial basis.
    pub fn into_basis(self) -> (r: LabeledPolynomialWithBasis)
        ensures
            r@ == self@.in_basis(),
    {
        LabeledPolynomialWithBasis {
            basis: Some(Basis::Monomial),
            polynomial: self.polynomial,
            info: self.info,
        }
    }
}

impl PolynomialView {
    /// The same polynomial, written in the monomial basis.
    pub open spec fn in_basis(self) -> BasisView {
        BasisView { basis: Some(Basis::Monomial), values: self.coefficients, info: self.info }
    }
}

/// The basis in which a polynomial is written.
#[derive(Clone, Copy, Debug, PartialEq, Eq, Structural)]
pub enum Basis {
    /// By its coefficients.
    Monomial,
    /// By its evaluations over the domain.
    Lagrange,
}

/// A polynomial in the monomial or in the Lagrange basis, with its label and
/// bounds. One whose values were handed on holds no basis and no values any
/// more, only the label and the bounds.
#[derive(Clone, Debug, PartialEq, Eq)]
pub struct LabeledPolynomialWithBasis {
    /// The basis, unless the values were handed on.
    pub basis: Option<Basis>,
    /// The coefficients or the evaluations.
    pub polynomial: Vec<Field>,
    /// The label and the bounds.
    pub info: PolynomialInfo,
}

/// What a [`LabeledPolynomialWithBasis`] holds, as mathematics.
pub struct BasisView {
    pub basis: Option<Basis>,
    pub values: Seq<Field>,
    pub info: InfoView,
}

impl View for LabeledPolynomialWithBasis {
    type V = BasisView;

    open spec fn view(&self) -> BasisView {
        BasisView { basis: self.basis, values: self.polynomial@, info: self.info@ }
    }
}

impl BasisView {
    /// The polynomial after its values were handed on: the label and the
    /// bounds stay.
    pub open spec fn emptied(self) -> BasisView {
        BasisView { basis: None, values: Seq::empty(), info: self.info }
    }
}

impl LabeledPolynomialWithBasis {
    /// The polynomial with the given evaluations over the domain.
    pub fn new_lagrange_basis(label: String, evaluations: Vec<Field>, hiding_bound: Option<usize>) -> (r:
        LabeledPolynomialWithBasis)
        ensures
            r@ == (BasisView {
                basis: Some(Basis::Lagrange),
                values: evaluations@,
                info: InfoView { label: label@, degree_bound: None, hiding_bound },
            }),
    {
        LabeledPolynomialWithBasis {
            basis: Some(Basis::Lagrange),
            polynomial: evaluations,
            info: PolynomialInfo::new(label, None, hiding_bound),
        }
    }

    /// The label and the bounds.
    pub fn info(&self) -> (r: &PolynomialInfo)
        ensures
            r@ == self@.info,
    {
        &self.info
    }

    /// The label.
    pub fn label(&self) -> (r: &String)
        ensures
            r@ == self@.info.label,
    {
        &self.info.label
    }

    /// Hands the values on: returns the polynomial and leaves one with the
    /// same label and bounds and no values in its place.
    pub fn take(&mut self) -> (r: LabeledPolynomialWithBasis)
        ensures
            r@ == old(self)@,
            final(self)@ == old(self)@.emptied(),
    {
        let mut copy = LabeledPolynomialWithBasis {
            basis: None,
            polynomial: Vec::new(),
            info: self.info.duplicate(),
        };
        std::mem::swap(self, &mut copy);
        copy
    }
}

} // verus!
