use snark_core::field::Field;
use snark_core::snark::data_structures::Evaluations;
use snark_core::snark::evaluations::{find_instance, find_label, labels_are_distinct, values_by_instance};
use snark_core::snark::labels::{has_prefix, parse_index, same_text, without_prefix};

fn f(v: u64) -> Field {
    Field::from_u64(v)
}

// The labelled evaluations of a batch of two, in the order of their labels.
fn labelled() -> Vec<(String, Field)> {
    let mut list = vec![
        ("delta_omega_s_1_0", 60),
        ("delta_omega_s_1_1", 61),
        ("delta_table_omega", 74),
        ("f_0", 20),
        ("f_1", 21),
        ("g_1", 75),
        ("g_a", 76),
        ("g_b", 77),
        ("g_c", 78),
        ("s_1_0", 30),
        ("s_1_1", 31),
        ("s_2_0", 40),
        ("s_2_1", 41),
        ("s_l", 72),
        ("s_m", 71),
        ("table", 73),
        ("z_2_0", 50),
        ("z_2_1", 51),
        ("z_b_0", 10),
        ("z_b_1", 11),
    ];
    list.sort();
    list.into_iter().map(|(label, value)| (label.to_string(), f(value))).collect()
}

#[test]
fn evaluations_are_gathered_by_prefix_and_name() {
    let e = Evaluations::from_map(&labelled(), 2);
    assert_eq!(e.z_b_evals, vec![f(10), f(11)]);
    assert_eq!(e.f_evals, vec![f(20), f(21)]);
    assert_eq!(e.s_1_evals, vec![f(30), f(31)]);
    assert_eq!(e.s_2_evals, vec![f(40), f(41)]);
    assert_eq!(e.z_2_evals, vec![f(50), f(51)]);
    assert_eq!(e.delta_s_1_omega_evals, vec![f(60), f(61)]);
    assert_eq!(
        [e.s_m_eval, e.s_l_eval, e.table_eval, e.delta_table_omega_eval, e.g_1_eval, e.g_a_eval, e.g_b_eval, e.g_c_eval],
        [f(71), f(72), f(73), f(74), f(75), f(76), f(77), f(78)]
    );
}

#[test]
fn evaluations_are_found_by_label() {
    let e = Evaluations::from_map(&labelled(), 2);
    assert_eq!(e.get("z_b_0"), Some(f(10)));
    assert_eq!(e.get("z_b_1"), Some(f(11)));
    assert_eq!(e.get("z_b_2"), None);
    assert_eq!(e.get("z_b_+1"), Some(f(11)));
    assert_eq!(e.get("z_b_01"), Some(f(11)));
    assert_eq!(e.get("f_1"), Some(f(21)));
    assert_eq!(e.get("s_1_0"), Some(f(30)));
    assert_eq!(e.get("s_2_1"), Some(f(41)));
    assert_eq!(e.get("z_2_0"), Some(f(50)));
    assert_eq!(e.get("delta_omega_s_1_1"), Some(f(61)));
    assert_eq!(e.get("delta_omega_s_1_7"), None);
    assert_eq!(e.get("s_m"), Some(f(71)));
    assert_eq!(e.get("s_l"), Some(f(72)));
    assert_eq!(e.get("table"), Some(f(73)));
    assert_eq!(e.get("delta_table_omega"), Some(f(74)));
    assert_eq!(e.get("g_1"), Some(f(75)));
    assert_eq!(e.get("g_a"), Some(f(76)));
    assert_eq!(e.get("g_b"), Some(f(77)));
    assert_eq!(e.get("g_c"), Some(f(78)));
    assert_eq!(e.get("h_2"), None);
    assert_eq!(e.get(""), None);
    assert_eq!(e.get("s_m_0"), None);
    assert_eq!(e.get("z_b"), None);
}

// A batch of twelve, in the order of the labels: `z_b_10` sorts before
// `z_b_2`.
fn twelve() -> Vec<(String, Field)> {
    let mut list: Vec<(String, Field)> = Vec::new();
    for (at, prefix) in ["z_b_", "f_", "s_1_", "s_2_", "z_2_", "delta_omega_s_1_"].iter().enumerate() {
        for i in 0..12u64 {
            list.push((format!("{prefix}{i}"), f(100 * (at as u64 + 1) + i)));
        }
    }
    for (at, name) in ["s_m", "s_l", "table", "delta_table_omega", "g_1", "g_a", "g_b", "g_c"].iter().enumerate() {
        list.push((name.to_string(), f(71 + at as u64)));
    }
    list.sort_by(|a, b| a.0.cmp(&b.0));
    list
}

#[test]
fn per_instance_values_go_to_the_instance_of_their_label() {
    let list = twelve();
    let labels: Vec<&str> = list.iter().filter(|e| e.0.starts_with("z_b_")).map(|e| e.0.as_str()).collect();
    assert_eq!(&labels[..4], ["z_b_0", "z_b_1", "z_b_10", "z_b_11"]);
    let e = Evaluations::from_map(&list, 12);
    let expected: Vec<Field> = (0..12u64).map(|i| f(100 + i)).collect();
    assert_eq!(e.z_b_evals, expected);
    assert_eq!(e.f_evals, (0..12u64).map(|i| f(200 + i)).collect::<Vec<_>>());
    assert_eq!(e.delta_s_1_omega_evals, (0..12u64).map(|i| f(600 + i)).collect::<Vec<_>>());
    assert_eq!(e.get("z_b_2"), Some(f(102)));
    assert_eq!(e.get("z_b_10"), Some(f(110)));
    assert_eq!(e.get("z_b_11"), Some(f(111)));
    assert_eq!(e.get("z_b_12"), None);
}

#[test]
fn every_label_of_the_list_finds_its_value() {
    let list = twelve();
    let e = Evaluations::from_map(&list, 12);
    for (label, value) in &list {
        assert_eq!(e.get(label), Some(*value), "{label}");
        assert_eq!(find_label(&list, label), Some(*value));
    }
}

#[test]
fn the_order_of_the_list_does_not_matter() {
    let list = twelve();
    let mut reversed = list.clone();
    reversed.reverse();
    let mut rotated = list.clone();
    rotated.rotate_left(29);
    let e = Evaluations::from_map(&list, 12);
    assert_eq!(Evaluations::from_map(&reversed, 12), e);
    assert_eq!(Evaluations::from_map(&rotated, 12), e);
    assert_eq!(Evaluations::try_from_map(&rotated, 12), Some(e));
}

#[test]
fn a_list_that_is_not_well_labelled_gives_nothing() {
    let good = labelled();
    assert!(Evaluations::try_from_map(&good, 2).is_some());
    // Another batch size than the labels number.
    assert_eq!(Evaluations::try_from_map(&good, 1), None);
    assert_eq!(Evaluations::try_from_map(&good, 3), None);
    assert_eq!(Evaluations::try_from_map(&good, usize::MAX), None);
    // A label twice.
    let mut twice = good.clone();
    twice.push(("g_a".to_string(), f(1)));
    assert!(!labels_are_distinct(&twice));
    assert_eq!(Evaluations::try_from_map(&twice, 2), None);
    // A fixed name that is missing.
    let mut missing = good.clone();
    missing.retain(|(label, _)| label != "table");
    assert_eq!(Evaluations::try_from_map(&missing, 2), None);
    // An instance that is missing under one prefix.
    let mut gap = good.clone();
    gap.retain(|(label, _)| label != "s_2_1");
    assert_eq!(Evaluations::try_from_map(&gap, 2), None);
    // An index that is no number.
    let mut word = good.clone();
    word.push(("f_x".to_string(), f(1)));
    assert_eq!(Evaluations::try_from_map(&word, 2), None);
    // Two labels for one instance.
    let mut same = good.clone();
    same.push(("z_2_01".to_string(), f(1)));
    assert!(labels_are_distinct(&same));
    assert_eq!(Evaluations::try_from_map(&same, 2), None);
    // A label that is neither a fixed name nor under a prefix does no harm.
    let mut more = good.clone();
    more.push(("h_2".to_string(), f(1)));
    assert_eq!(Evaluations::try_from_map(&more, 2), Some(Evaluations::from_map(&good, 2)));
}

#[test]
fn values_are_placed_by_instance() {
    let list = twelve();
    assert_eq!(values_by_instance(&list, "s_1_", 12), Some((0..12u64).map(|i| f(300 + i)).collect()));
    assert_eq!(values_by_instance(&list, "s_1_", 11), None);
    assert_eq!(values_by_instance(&list, "s_1_", 13), None);
    assert_eq!(values_by_instance(&list, "q_", 0), Some(vec![]));
    assert_eq!(find_instance(&list, "z_b_", 10), Some(70));
    assert_eq!(find_instance(&list, "z_b_", 2), Some(72));
    assert_eq!(find_instance(&list, "z_b_", 12), None);
    assert!(labels_are_distinct(&list));
    assert!(labels_are_distinct(&Vec::new()));
}

#[test]
fn indices_are_decimal_numbers() {
    assert_eq!(parse_index("0"), Some(0));
    assert_eq!(parse_index("42"), Some(42));
    assert_eq!(parse_index("+42"), Some(42));
    assert_eq!(parse_index("007"), Some(7));
    assert_eq!(parse_index(""), None);
    assert_eq!(parse_index("+"), None);
    assert_eq!(parse_index("-1"), None);
    assert_eq!(parse_index("4 2"), None);
    assert_eq!(parse_index("4_2"), None);
    assert_eq!(parse_index("x"), None);
    assert_eq!(parse_index("١"), None);
    assert_eq!(parse_index(&usize::MAX.to_string()), Some(usize::MAX));
    assert_eq!(parse_index("18446744073709551616"), None);
    assert_eq!(parse_index("99999999999999999999999"), None);
}

#[test]
fn prefixes_and_texts() {
    assert!(has_prefix("z_b_3", "z_b_"));
    assert!(has_prefix("z_b_", "z_b_"));
    assert!(has_prefix("abc", ""));
    assert!(!has_prefix("z_b", "z_b_"));
    assert!(!has_prefix("z_a_3", "z_b_"));
    assert!(!has_prefix("", "f_"));
    assert!(same_text("table", "table"));
    assert!(!same_text("table", "tables"));
    assert!(!same_text("tablé", "table"));
    assert!(same_text("", ""));
    assert_eq!(without_prefix("z_b_31", 4), "31");
    assert_eq!(without_prefix("é_1", 2), "1");
    assert_eq!(without_prefix("ab", 2), "");
}
