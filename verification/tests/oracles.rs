use snark_core::field::Field;
use snark_core::snark::oracles::{
    FifthOracles, FirstOracles, FourthOracles, SecondEntry, SecondOracles, SingleEntry, SixthOracles, ThirdOracles,
};
use snark_core::snark::polynomial::{
    info_matches, is_labelled_once, Basis, LabeledPolynomial, LabeledPolynomialWithBasis, PolynomialInfo,
};

fn poly(label: &str, degree_bound: Option<usize>, hiding_bound: Option<usize>) -> LabeledPolynomial {
    LabeledPolynomial::new(label.to_string(), vec![Field::from_u64(label.len() as u64), Field::one()], degree_bound, hiding_bound)
}

fn evals(label: &str) -> LabeledPolynomialWithBasis {
    LabeledPolynomialWithBasis::new_lagrange_basis(label.to_string(), vec![Field::from_u64(7); 4], None)
}

fn info(label: &str, degree_bound: Option<usize>, hiding_bound: Option<usize>) -> PolynomialInfo {
    PolynomialInfo::new(label.to_string(), degree_bound, hiding_bound)
}

fn single(i: usize) -> SingleEntry {
    SingleEntry {
        z_a: evals(&format!("z_a_{i}")),
        z_b: evals(&format!("z_b_{i}")),
        z_c: evals(&format!("z_c_{i}")),
        w_poly: poly(&format!("w_{i}"), None, Some(1)),
        z_a_poly: poly(&format!("z_a_{i}"), None, None),
        z_b_poly: poly(&format!("z_b_{i}"), None, None),
        z_c_poly: poly(&format!("z_c_{i}"), None, None),
    }
}

fn first_info(batch_size: usize) -> Vec<PolynomialInfo> {
    let mut list = vec![info("mask_poly", None, None)];
    for i in 0..batch_size {
        list.push(info(&format!("w_{i}"), None, Some(1)));
        list.push(info(&format!("z_a_{i}"), None, None));
        list.push(info(&format!("z_b_{i}"), None, None));
        list.push(info(&format!("z_c_{i}"), None, None));
    }
    list
}

fn labels_of(list: &[&LabeledPolynomial]) -> Vec<String> {
    list.iter().map(|p| p.label().clone()).collect()
}

#[test]
fn first_round_hands_out_each_instance_and_then_the_mask() {
    let mut oracles = FirstOracles { batches: vec![single(0), single(1)], mask_poly: Some(poly("mask_poly", None, None)) };
    assert_eq!(
        labels_of(&oracles.iter_for_open()),
        ["w_0", "z_a_0", "z_b_0", "z_c_0", "w_1", "z_a_1", "z_b_1", "z_c_1", "mask_poly"]
    );
    let committed = oracles.iter_for_commit();
    let labels: Vec<&str> = committed.iter().map(|p| p.label().as_str()).collect();
    assert_eq!(labels, ["w_0", "z_a_0", "z_b_0", "z_c_0", "w_1", "z_a_1", "z_b_1", "z_c_1", "mask_poly"]);
    // The extension of w comes in the monomial basis, the others as
    // evaluations.
    assert_eq!(committed[0].basis, Some(Basis::Monomial));
    assert_eq!(committed[0].polynomial, vec![Field::from_u64(3), Field::one()]);
    assert_eq!(committed[1].basis, Some(Basis::Lagrange));
    assert_eq!(committed[1].polynomial, vec![Field::from_u64(7); 4]);
    assert_eq!(committed[8].basis, Some(Basis::Monomial));
    // The evaluations were moved out; labels and the opening view stay.
    for batch in &oracles.batches {
        for emptied in [&batch.z_a, &batch.z_b, &batch.z_c] {
            assert!(emptied.polynomial.is_empty());
            assert_eq!(emptied.basis, None);
        }
        assert_eq!(batch.w_poly.polynomial.len(), 2);
    }
    assert_eq!(oracles.batches[1].z_b.label(), "z_b_1");
    assert_eq!(oracles.iter_for_open().len(), 9);
    assert!(oracles.matches_info(&first_info(2)));
    // A second round of committing finds the evaluations gone.
    let again = oracles.iter_for_commit();
    assert!(again[1].polynomial.is_empty());
    assert_eq!(again[0].polynomial.len(), 2);
}

#[test]
fn first_round_without_a_mask() {
    let mut oracles = FirstOracles { batches: vec![single(0)], mask_poly: None };
    assert_eq!(oracles.iter_for_open().len(), 4);
    assert_eq!(oracles.iter_for_commit().len(), 4);
    assert!(oracles.matches_info(&first_info(1)));
    let mut none = FirstOracles { batches: vec![], mask_poly: None };
    assert!(none.iter_for_commit().is_empty());
    assert!(none.iter_for_open().is_empty());
    assert!(none.matches_info(&vec![]));
}

#[test]
fn oracles_are_held_against_the_declared_bounds() {
    let oracles = FirstOracles { batches: vec![single(0), single(1)], mask_poly: Some(poly("mask_poly", None, None)) };
    assert!(oracles.matches_info(&first_info(2)));
    // A label that is not declared.
    assert!(!oracles.matches_info(&first_info(1)));
    // A declared bound that differs.
    let mut wrong_hiding = first_info(2);
    wrong_hiding[1] = info("w_0", None, Some(2));
    assert!(!oracles.matches_info(&wrong_hiding));
    let mut wrong_degree = first_info(2);
    wrong_degree[0] = info("mask_poly", Some(8), None);
    assert!(!oracles.matches_info(&wrong_degree));
    // A single entry is checked on all seven polynomials.
    assert!(single(1).matches_info(&first_info(2)));
    assert!(!single(2).matches_info(&first_info(2)));
    assert!(info_matches(&info("z_c_1", None, None), &first_info(2)));
    assert!(!info_matches(&info("z_c_1", None, Some(1)), &first_info(2)));
    assert!(info("a", Some(1), None).same(&info("a", Some(1), None)));
    assert!(!info("a", Some(1), None).same(&info("b", Some(1), None)));
    assert!(!info("a", Some(1), None).same(&info("a", None, None)));
}

fn second(i: usize) -> SecondEntry {
    SecondEntry {
        f_poly: poly(&format!("f_{i}"), None, None),
        s_1_poly: poly(&format!("s_1_{i}"), None, None),
        s_2_poly: poly(&format!("s_2_{i}"), None, None),
        z_2_poly: poly(&format!("z_2_{i}"), None, None),
        delta_s_1_omega_poly: poly(&format!("delta_s_1_omega_{i}"), None, None),
        z_2_omega_poly: poly(&format!("z_2_omega_{i}"), None, None),
    }
}

#[test]
fn second_round_hands_out_each_instance_and_then_the_table() {
    let oracles = SecondOracles {
        batches: vec![second(0), second(1)],
        table: poly("table", None, None),
        delta_table_omega: poly("delta_table_omega", None, None),
    };
    let labels = labels_of(&oracles.iter());
    assert_eq!(
        labels,
        [
            "f_0", "s_1_0", "s_2_0", "z_2_0", "delta_s_1_omega_0", "z_2_omega_0", "f_1", "s_1_1", "s_2_1", "z_2_1",
            "delta_s_1_omega_1", "z_2_omega_1", "table", "delta_table_omega"
        ]
    );
    let declared: Vec<PolynomialInfo> = labels.iter().map(|l| info(l, None, None)).collect();
    assert!(oracles.matches_info(&declared));
    assert!(oracles.batches[0].matches_info(&declared));
    assert!(!oracles.matches_info(&declared[..13].to_vec()));
    assert!(!oracles.matches_info(&declared[1..].to_vec()));
    assert!(!second(2).matches_info(&declared));
    assert_eq!(labels_of(&second(3).iter()).len(), 6);
}

#[test]
fn later_rounds_hand_out_their_polynomials() {
    let declared = vec![info("g_1", Some(10), Some(1)), info("h_1", None, None), info("g_a", Some(4), None)];
    let third = ThirdOracles { g_1: poly("g_1", Some(10), Some(1)) };
    assert_eq!(labels_of(&third.iter()), ["g_1"]);
    assert!(third.matches_info(&declared));
    assert!(!ThirdOracles { g_1: poly("g_1", Some(11), Some(1)) }.matches_info(&declared));
    let fourth = FourthOracles { h_1: poly("h_1", None, None) };
    assert_eq!(labels_of(&fourth.iter()), ["h_1"]);
    assert!(fourth.matches_info(&declared));
    let fifth = FifthOracles { g_a: poly("g_a", Some(4), None), g_b: poly("g_b", None, None), g_c: poly("g_c", None, None) };
    assert_eq!(labels_of(&fifth.iter()), ["g_a", "g_b", "g_c"]);
    assert!(!fifth.matches_info(&declared));
    let mut all = declared;
    all.push(info("g_b", None, None));
    all.push(info("g_c", None, None));
    assert!(fifth.matches_info(&all));
    let sixth = SixthOracles { h_2: poly("h_2", None, None) };
    assert_eq!(labels_of(&sixth.iter()), ["h_2"]);
    assert!(!sixth.matches_info(&all));
    all.push(info("h_2", None, None));
    assert!(sixth.matches_info(&all));
}

#[test]
fn a_list_of_declarations_names_each_label_once() {
    assert!(is_labelled_once(&Vec::new()));
    assert!(is_labelled_once(&first_info(0)));
    assert!(is_labelled_once(&first_info(3)));
    let mut twice = first_info(2);
    twice.push(info("z_a_0", Some(3), None));
    assert!(!is_labelled_once(&twice));
    let mut at_the_front = vec![info("w_1", None, None)];
    at_the_front.extend(first_info(2));
    assert!(!is_labelled_once(&at_the_front));
    // The same bounds under two labels are two declarations.
    assert!(is_labelled_once(&vec![info("a", Some(1), None), info("b", Some(1), None)]));
    // The place of a declaration in the list does not matter.
    let mut reversed = first_info(2);
    reversed.reverse();
    assert!(is_labelled_once(&reversed));
    assert!(single(1).matches_info(&reversed));
    assert!(info_matches(&info("w_0", None, Some(1)), &reversed));
    assert!(!info_matches(&info("w_0", None, None), &reversed));
}
