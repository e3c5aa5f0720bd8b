//! The oracles of the six prover rounds.
//!
//! Each round hands out a fixed list of labelled polynomials: once to be
//! committed to, which may move the values out, and once to be opened, which
//! only lends them. Before a round is committed, its polynomials are held
//! against the labels and bounds that the circuit declares.

use crate::snark::polynomial::{
    info_matches, infos, is_declared, labelled_once, BasisView, InfoView, LabeledPolynomial,
    LabeledPolynomialWithBasis, PolynomialInfo, PolynomialView,
};
use vstd::prelude::*;

verus! {

/// The views of a list of polynomials in a basis.
pub open spec fn basis_views(list: Seq<LabeledPolynomialWithBasis>) -> Seq<BasisView> {
    Seq::new(list.len(), |i: int| list[i]@)
}

/// The views of a list of borrowed polynomials.
pub open spec fn views(list: Seq<&LabeledPolynomial>) -> Seq<PolynomialView> {
    Seq::new(list.len(), |i: int| list[i]@)
}

/// The oracles of the first round for one instance.
#[derive(Clone, Debug)]
pub struct SingleEntry {
    /// The evaluations of `Az`.
    pub z_a: LabeledPolynomialWithBasis,
    /// The evaluations of `Bz`.
    pub z_b: LabeledPolynomialWithBasis,
    /// The evaluations of `Cz`.
    pub z_c: LabeledPolynomialWithBasis,
    /// The LDE of `w`.
    pub w_poly: LabeledPolynomial,
    /// The LDE of `Az`.
    pub z_a_poly: LabeledPolynomial,
    /// The LDE of `Bz`.
    pub z_b_poly: LabeledPolynomial,
    /// The LDE of `Cz`.
    pub z_c_poly: LabeledPolynomial,
}

/// What a [`SingleEntry`] holds, as mathematics.
pub struct SingleEntryView {
    pub z_a: BasisView,
    pub z_b: BasisView,
    pub z_c: BasisView,
    pub w_poly: PolynomialView,
    pub z_a_poly: PolynomialView,
    pub z_b_poly: PolynomialView,
    pub z_c_poly: PolynomialView,
}

impl View for SingleEntry {
    type V = SingleEntryView;

    open spec fn view(&self) -> SingleEntryView {
        SingleEntryView {
            z_a: self.z_a@,
            z_b: self.z_b@,
            z_c: self.z_c@,
            w_poly: self.w_poly@,
            z_a_poly: self.z_a_poly@,
            z_b_poly: self.z_b_poly@,
            z_c_poly: self.z_c_poly@,
        }
    }
}

impl SingleEntryView {
    /// The polynomials that are committed to: `w` in the monomial basis, and
    /// the evaluations of `Az`, `Bz` and `Cz`.
    pub open spec fn for_commit(self) -> Seq<BasisView> {
        seq![self.w_poly.in_basis(), self.z_a, self.z_b, self.z_c]
    }

    /// The entry after its polynomials were handed out to be committed to:
    /// the evaluations of `Az`, `Bz` and `Cz` are gone, their labels and
    /// bounds stay.
    pub open spec fn after_commit(self) -> SingleEntryView {
        SingleEntryView {
            z_a: self.z_a.emptied(),
            z_b: self.z_b.emptied(),
            z_c: self.z_c.emptied(),
            ..self
        }
    }

    /// The polynomials that are opened: the extensions of `w`, `Az`, `Bz`
    /// and `Cz`.
    pub open spec fn for_open(self) -> Seq<PolynomialView> {
        seq![self.w_poly, self.z_a_poly, self.z_b_poly, self.z_c_poly]
    }

    /// Whether all seven polynomials are declared with their bounds.
    pub open spec fn matches_info(self, info: Seq<InfoView>) -> bool {
        &&& is_declared(self.w_poly.info, info)
        &&& is_declared(self.z_a.info, info)
        &&& is_declared(self.z_b.info, info)
        &&& is_declared(self.z_c.info, info)
        &&& is_declared(self.z_a_poly.info, info)
        &&& is_declared(self.z_b_poly.info, info)
        &&& is_declared(self.z_c_poly.info, info)
    }
}

impl SingleEntry {
    /// The polynomials output by the prover in the first round for this
    /// instance, to be committed to. The evaluations are moved out.
    pub fn iter_for_commit(&mut self) -> (r: Vec<LabeledPolynomialWithBasis>)
        ensures
            basis_views(r@) == old(self)@.for_commit(),
            final(self)@ == old(self)@.after_commit(),
    {
        let w_poly = self.w_poly.duplicate();
        let z_a = self.z_a.take();
        let z_b = self.z_b.take();
        let z_c = self.z_c.take();
        let mut out = Vec::new();
        out.push(w_poly.into_basis());
        out.push(z_a);
        out.push(z_b);
        out.push(z_c);
        assert(basis_views(out@) =~= old(self)@.for_commit());
        out
    }

    /// The polynomials output by the prover in the first round for this
    /// instance, to be opened.
    pub fn iter_for_open(&self) -> (r: Vec<&LabeledPolynomial>)
        ensures
            views(r@) == self@.for_open(),
    {
        let mut out = Vec::new();
        out.push(&self.w_poly);
        out.push(&self.z_a_poly);
        out.push(&self.z_b_poly);
        out.push(&self.z_c_poly);
        assert(views(out@) =~= self@.for_open());
        out
    }

    /// Whether every polynomial is declared in `info` with its bounds. The
    /// list stands for a map that is keyed by label: it declares no label
    /// twice.
    pub fn matches_info(&self, info: &Vec<PolynomialInfo>) -> (r: bool)
        requires
            labelled_once(infos(info@)),
        ensures
            r == self@.matches_info(infos(info@)),
    {
        info_matches(self.w_poly.info(), info) && info_matches(self.z_a.info(), info)
            && info_matches(self.z_b.info(), info) && info_matches(self.z_c.info(), info)
            && info_matches(self.z_a_poly.info(), info) && info_matches(self.z_b_poly.info(), info)
            && info_matches(self.z_c_poly.info(), info)
    }
}

/// The views of a list of first-round entries.
pub open spec fn entries(list: Seq<SingleEntry>) -> Seq<SingleEntryView> {
    Seq::new(list.len(), |i: int| list[i]@)
}

/// The polynomials that the entries hand out to be committed to, entry by
/// entry.
pub open spec fn commit_list(list: Seq<SingleEntryView>) -> Seq<BasisView>
    decreases list.len(),
{
    if list.len() == 0 {
        Seq::empty()
    } else {
        commit_list(list.drop_last()) + list.last().for_commit()
    }
}

/// The polynomials that the entries hand out to be opened, entry by entry.
pub open spec fn open_list(list: Seq<SingleEntryView>) -> Seq<PolynomialView>
    decreases list.len(),
{
    if list.len() == 0 {
        Seq::empty()
    } else {
        open_list(list.drop_last()) + list.last().for_open()
    }
}

/// The entries after each of them handed its polynomials out to be committed
/// to.
pub open spec fn committed(list: Seq<SingleEntryView>) -> Seq<SingleEntryView> {
    Seq::new(list.len(), |i: int| list[i].after_commit())
}

/// The first set of prover oracles.
#[derive(Clone, Debug)]
pub struct FirstOracles {
    /// The oracles of each instance.
    pub batches: Vec<SingleEntry>,
    /// The sum-check hiding polynomial.
    pub mask_poly: Option<LabeledPolynomial>,
}

/// What [`FirstOracles`] hold, as mathematics.
pub struct FirstOraclesView {
    pub batches: Seq<SingleEntryView>,
    pub mask_poly: Option<PolynomialView>,
}

impl View for FirstOracles {
    type V = FirstOraclesView;

    open spec fn view(&self) -> FirstOraclesView {
        FirstOraclesView {
            batches: entries(self.batches@),
            mask_poly: match self.mask_poly {
                Some(mask) => Some(mask@),
                None => None,
            },
        }
    }
}

impl FirstOraclesView {
    /// The polynomials that are committed to: those of every instance, then
    /// the masking polynomial where there is one.
    pub open spec fn for_commit(self) -> Seq<BasisView> {
        match self.mask_poly {
            Some(mask) => commit_list(self.batches).push(mask.in_basis()),
            None => commit_list(self.batches),
        }
    }

    /// The polynomials that are opened: those of every instance, then the
    /// masking polynomial where there is one.
    pub open spec fn for_open(self) -> Seq<PolynomialView> {
        match self.mask_poly {
            Some(mask) => open_list(self.batches).push(mask),
            None => open_list(self.batches),
        }
    }

    /// Whether every polynomial is declared with its bounds.
    pub open spec fn matches_info(self, info: Seq<InfoView>) -> bool {
        &&& forall|i: int|
            0 <= i < self.batches.len() ==> (#[trigger] self.batches[i]).matches_info(info)
        &&& match self.mask_poly {
            Some(mask) => is_declared(mask.info, info),
            None => true,
        }
    }
}

impl FirstOracles {
    /// The polynomials output by the prover in the first round, to be
    /// committed to. The evaluations of every instance are moved out.
    pub fn iter_for_commit(&mut self) -> (r: Vec<LabeledPolynomialWithBasis>)
        ensures
            basis_views(r@) == old(self)@.for_commit(),
            final(self)@ == (FirstOraclesView {
                batches: committed(old(self)@.batches),
                mask_poly: old(self)@.mask_poly,
            }),
    {
        let ghost before = self@.batches;
        let mut out: Vec<LabeledPolynomialWithBasis> = Vec::new();
        let mut i: usize = 0;
        proof {
            assert(before.take(0) =~= Seq::empty());
            assert(basis_views(out@) =~= commit_list(before.take(0)));
        }
        while i < self.batches.len()
            invariant
                i <= self.batches@.len(),
                self.batches@.len() == before.len(),
                self.mask_poly == old(self).mask_poly,
                before == old(self)@.batches,
                basis_views(out@) == commit_list(before.take(i as int)),
                forall|j: int| 0 <= j < i ==> (#[trigger] self.batches@[j])@ == before[j].after_commit(),
                forall|j: int| i <= j < before.len() ==> (#[trigger] self.batches@[j])@ == before[j],
            decreases self.batches@.len() - i,
        {
            let ghost so_far = basis_views(out@);
            let mut more = self.batches[i].iter_for_commit();
            let ghost added = basis_views(more@);
            out.append(&mut more);
            proof {
                let next = before.take(i + 1);
                assert(next.drop_last() =~= before.take(i as int));
                assert(next.last() == before[i as int]);
                assert(basis_views(out@) =~= so_far + added);
            }
            i += 1;
        }
        proof {
            assert(before.take(i as int) =~= before);
            assert(self@.batches =~= committed(before));
        }
        match &self.mask_poly {
            Some(mask) => {
                let ghost so_far = basis_views(out@);
                out.push(mask.duplicate().into_basis());
                assert(basis_views(out@) =~= so_far.push(mask@.in_basis()));
            },
            None => {},
        }
        out
    }

    /// The polynomials output by the prover in the first round, to be
    /// opened.
    pub fn iter_for_open(&self) -> (r: Vec<&LabeledPolynomial>)
        ensures
            views(r@) == self@.for_open(),
    {
        let ghost all = self@.batches;
        let mut out: Vec<&LabeledPolynomial> = Vec::new();
        let mut i: usize = 0;
        proof {
            assert(all.take(0) =~= Seq::empty());
            assert(views(out@) =~= open_list(all.take(0)));
        }
        while i < self.batches.len()
            invariant
                i <= self.batches@.len(),
                all == self@.batches,
                views(out@) == open_list(all.take(i as int)),
            decreases self.batches@.len() - i,
        {
            let ghost so_far = views(out@);
            let mut more = self.batches[i].iter_for_open();
            let ghost added = views(more@);
            out.append(&mut more);
            proof {
                let next = all.take(i + 1);
                assert(next.drop_last() =~= all.take(i as int));
                assert(next.last() == all[i as int]);
                assert(views(out@) =~= so_far + added);
            }
            i += 1;
        }
        proof {
            assert(all.take(i as int) =~= all);
        }
        match &self.mask_poly {
            Some(mask) => {
                let ghost so_far = views(out@);
                out.push(mask);
                assert(views(out@) =~= so_far.push(mask@));
            },
            None => {},
        }
        out
    }

    /// Whether every polynomial is declared in `info` with its bounds. The
    /// list stands for a map that is keyed by label: it declares no label
    /// twice.
    pub fn matches_info(&self, info: &Vec<PolynomialInfo>) -> (r: bool)
        requires
            labelled_once(infos(info@)),
        ensures
            r == self@.matches_info(infos(info@)),
    {
        let mut i: usize = 0;
        while i < self.batches.len()
            invariant
                i <= self.batches@.len(),
                labelled_once(infos(info@)),
                forall|j: int|
                    0 <= j < i ==> (#[trigger] self@.batches[j]).matches_info(infos(info@)),
            decreases self.batches@.len() - i,
        {
            if !self.batches[i].matches_info(info) {
                assert(!self@.batches[i as int].matches_info(infos(info@)));
                return false;
            }
            i += 1;
        }
        match &self.mask_poly {
            Some(mask) => info_matches(mask.info(), info),
            None => true,
        }
    }
}

/// The oracles of the second round for one instance.
#[derive(Clone, Debug)]
pub struct SecondEntry {
    /// The query vector polynomial.
    pub f_poly: LabeledPolynomial,
    /// The first half of the concatenated lookup polynomial.
    pub s_1_poly: LabeledPolynomial,
    /// The second half of the concatenated lookup polynomial.
    pub s_2_poly: LabeledPolynomial,
    /// Plookup permutation poly.
    pub z_2_poly: LabeledPolynomial,
    /// The shifted first half of the concatenated lookup polynomial,
    /// multiplied by `delta`.
    pub delta_s_1_omega_poly: LabeledPolynomial,
    /// Shifted plookup permutation poly.
    pub z_2_omega_poly: LabeledPolynomial,
}

impl SecondEntry {
    /// The six polynomials in the order in which they are handed out.
    pub open spec fn list(&self) -> Seq<PolynomialView> {
        seq![
            self.f_poly@,
            self.s_1_poly@,
            self.s_2_poly@,
            self.z_2_poly@,
            self.delta_s_1_omega_poly@,
            self.z_2_omega_poly@,
        ]
    }

    /// Whether all six polynomials are declared with their bounds.
    pub open spec fn declared_in(&self, info: Seq<InfoView>) -> bool {
        forall|i: int| 0 <= i < 6 ==> is_declared((#[trigger] self.list()[i]).info, info)
    }

    /// The polynomials output by the prover in the second round for this
    /// instance.
    pub fn iter(&self) -> (r: Vec<&LabeledPolynomial>)
        ensures
            views(r@) == self.list(),
    {
        let mut out = Vec::new();
        out.push(&self.f_poly);
        out.push(&self.s_1_poly);
        out.push(&self.s_2_poly);
        out.push(&self.z_2_poly);
        out.push(&self.delta_s_1_omega_poly);
        out.push(&self.z_2_omega_poly);
        assert(views(out@) =~= self.list());
        out
    }

    /// Whether every polynomial is declared in `info` with its bounds. The
    /// list stands for a map that is keyed by label: it declares no label
    /// twice.
    pub fn matches_info(&self, info: &Vec<PolynomialInfo>) -> (r: bool)
        requires
            labelled_once(infos(info@)),
        ensures
            r == self.declared_in(infos(info@)),
    {
        let all = self.iter();
        let r = all_match(&all, info);
        proof {
            let list = views(all@);
            let declared = infos(info@);
            if r {
                assert forall|i: int| 0 <= i < 6 implies is_declared(
                    (#[trigger] self.list()[i]).info,
                    declared,
                ) by {
                    assert(is_declared(list[i].info, declared));
                }
            } else {
                let i = choose|i: int| 0 <= i < list.len() && !is_declared(
                    (#[trigger] list[i]).info,
                    declared,
                );
                assert(!is_declared(self.list()[i].info, declared));
            }
        }
        r
    }
}

/// Whether every one of `polynomials` is declared in `info` with its bounds.
pub fn all_match(polynomials: &Vec<&LabeledPolynomial>, info: &Vec<PolynomialInfo>) -> (r: bool)
    requires
        labelled_once(infos(info@)),
    ensures
        r == (forall|i: int|
            0 <= i < polynomials@.len() ==> is_declared(
                (#[trigger] views(polynomials@)[i]).info,
                infos(info@),
            )),
{
    let mut i: usize = 0;
    while i < polynomials.len()
        invariant
            i <= polynomials@.len(),
            labelled_once(infos(info@)),
            forall|j: int|
                0 <= j < i ==> is_declared((#[trigger] views(polynomials@)[j]).info, infos(info@)),
        decreases polynomials@.len() - i,
    {
        if !info_matches(polynomials[i].info(), info) {
            assert(!is_declared(views(polynomials@)[i as int].info, infos(info@)));
            return false;
        }
        i += 1;
    }
    true
}

/// The polynomials that second-round entries hand out, entry by entry.
pub open spec fn second_list(list: Seq<SecondEntry>) -> Seq<PolynomialView>
    decreases list.len(),
{
    if list.len() == 0 {
        Seq::empty()
    } else {
        second_list(list.drop_last()) + list.last().list()
    }
}

/// The second set of prover oracles.
#[derive(Clone, Debug)]
pub struct SecondOracles {
    /// The oracles of each instance.
    pub batches: Vec<SecondEntry>,
    /// The polynomial resulting from interpolating the table vector.
    pub table: LabeledPolynomial,
    /// The table polynomial, shifted by one and multiplied by `delta`.
    pub delta_table_omega: LabeledPolynomial,
}

impl SecondOracles {
    /// The polynomials in the order in which they are handed out: those of
    /// every instance, then `table` and `delta_table_omega`.
    pub open spec fn list(&self) -> Seq<PolynomialView> {
        second_list(self.batches@).push(self.table@).push(self.delta_table_omega@)
    }

    /// Whether every polynomial is declared with its bounds.
    pub open spec fn declared_in(&self, info: Seq<InfoView>) -> bool {
        &&& forall|i: int| 0 <= i < self.batches@.len() ==> (#[trigger] self.batches@[i]).declared_in(info)
        &&& is_declared(self.table@.info, info)
        &&& is_declared(self.delta_table_omega@.info, info)
    }

    /// The polynomials output by the prover in the second round.
    pub fn iter(&self) -> (r: Vec<&LabeledPolynomial>)
        ensures
            views(r@) == self.list(),
    {
        let mut out: Vec<&LabeledPolynomial> = Vec::new();
        let mut i: usize = 0;
        proof {
            assert(self.batches@.take(0) =~= Seq::empty());
            assert(views(out@) =~= second_list(self.batches@.take(0)));
        }
        while i < self.batches.len()
            invariant
                i <= self.batches@.len(),
                views(out@) == second_list(self.batches@.take(i as int)),
            decreases self.batches@.len() - i,
        {
            let ghost so_far = views(out@);
            let mut more = self.batches[i].iter();
            let ghost added = views(more@);
            out.append(&mut more);
            proof {
                let next = self.batches@.take(i + 1);
                assert(next.drop_last() =~= self.batches@.take(i as int));
                assert(next.last() == self.batches@[i as int]);
                assert(views(out@) =~= so_far + added);
            }
            i += 1;
        }
        proof {
            assert(self.batches@.take(i as int) =~= self.batches@);
        }
        let ghost so_far = views(out@);
        out.push(&self.table);
        out.push(&self.delta_table_omega);
        assert(views(out@) =~= so_far.push(self.table@).push(self.delta_table_omega@));
        out
    }

    /// Whether every polynomial is declared in `info` with its bounds. The
    /// list stands for a map that is keyed by label: it declares no label
    /// twice.
    pub fn matches_info(&self, info: &Vec<PolynomialInfo>) -> (r: bool)
        requires
            labelled_once(infos(info@)),
        ensures
            r == self.declared_in(infos(info@)),
    {
        let mut i: usize = 0;
        while i < self.batches.len()
            invariant
                i <= self.batches@.len(),
                labelled_once(infos(info@)),
                forall|j: int| 0 <= j < i ==> (#[trigger] self.batches@[j]).declared_in(infos(info@)),
            decreases self.batches@.len() - i,
        {
            if !self.batches[i].matches_info(info) {
                return false;
            }
            i += 1;
        }
        info_matches(self.table.info(), info) && info_matches(self.delta_table_omega.info(), info)
    }
}

/// The third set of prover oracles.
#[derive(Debug)]
pub struct ThirdOracles {
    /// The polynomial `g` resulting from the lincheck sumcheck.
    pub g_1: LabeledPolynomial,
}

impl ThirdOracles {
    /// The polynomials output by the prover in the third round.
    pub fn iter(&self) -> (r: Vec<&LabeledPolynomial>)
        ensures
            views(r@) == seq![self.g_1@],
    {
        let mut out = Vec::new();
        out.push(&self.g_1);
        assert(views(out@) =~= seq![self.g_1@]);
        out
    }

    /// Whether `g_1` is declared in `info` with its bounds.
    pub fn matches_info(&self, info: &Vec<PolynomialInfo>) -> (r: bool)
        requires
            labelled_once(infos(info@)),
        ensures
            r == is_declared(self.g_1@.info, infos(info@)),
    {
        info_matches(self.g_1.info(), info)
    }
}

/// The fourth set of prover oracles.
#[derive(Debug)]
pub struct FourthOracles {
    /// The polynomial `h` resulting from combining the lincheck sumcheck and
    /// the rowcheck.
    pub h_1: LabeledPolynomial,
}

impl FourthOracles {
    /// The polynomials output by the prover in the fourth round.
    pub fn iter(&self) -> (r: Vec<&LabeledPolynomial>)
        ensures
            views(r@) == seq![self.h_1@],
    {
        let mut out = Vec::new();
        out.push(&self.h_1);
        assert(views(out@) =~= seq![self.h_1@]);
        out
    }

    /// Whether `h_1` is declared in `info` with its bounds.
    pub fn matches_info(&self, info: &Vec<PolynomialInfo>) -> (r: bool)
        requires
            labelled_once(infos(info@)),
        ensures
            r == is_declared(self.h_1@.info, infos(info@)),
    {
        info_matches(self.h_1.info(), info)
    }
}

/// The fifth set of prover oracles.
#[derive(Debug)]
pub struct FifthOracles {
    /// The polynomial `g_a` resulting from the second sumcheck.
    pub g_a: LabeledPolynomial,
    /// The polynomial `g_b` resulting from the second sumcheck.
    pub g_b: LabeledPolynomial,
    /// The polynomial `g_c` resulting from the second sumcheck.
    pub g_c: LabeledPolynomial,
}

impl FifthOracles {
    /// The polynomials output by the prover in the fifth round.
    pub fn iter(&self) -> (r: Vec<&LabeledPolynomial>)
        ensures
            views(r@) == seq![self.g_a@, self.g_b@, self.g_c@],
    {
        let mut out = Vec::new();
        out.push(&self.g_a);
        out.push(&self.g_b);
        out.push(&self.g_c);
        assert(views(out@) =~= seq![self.g_a@, self.g_b@, self.g_c@]);
        out
    }

    /// Whether `g_a`, `g_b` and `g_c` are declared in `info` with their
    /// bounds.
    pub fn matches_info(&self, info: &Vec<PolynomialInfo>) -> (r: bool)
        requires
            labelled_once(infos(info@)),
        ensures
            r == (is_declared(self.g_a@.info, infos(info@)) && is_declared(self.g_b@.info, infos(info@))
                && is_declared(self.g_c@.info, infos(info@))),
    {
        info_matches(self.g_a.info(), info) && info_matches(self.g_b.info(), info) && info_matches(
            self.g_c.info(),
            info,
        )
    }
}

/// The sixth set of prover oracles.
#[derive(Debug)]
pub struct SixthOracles {
    /// The polynomial `h_2` resulting from the second sumcheck.
    pub h_2: LabeledPolynomial,
}

impl SixthOracles {
    /// The polynomials output by the prover in the sixth round.
    pub fn iter(&self) -> (r: Vec<&LabeledPolynomial>)
        ensures
            views(r@) == seq![self.h_2@],
    {
        let mut out = Vec::new();
        out.push(&self.h_2);
        assert(views(out@) =~= seq![self.h_2@]);
        out
    }

    /// Whether `h_2` is declared in `info` with its bounds.
    pub fn matches_info(&self, info: &Vec<PolynomialInfo>) -> (r: bool)
        requires
            labelled_once(infos(info@)),
        ensures
            r == is_declared(self.h_2@.info, infos(info@)),
    {
        info_matches(self.h_2.info(), info)
    }
}

} // verus!
