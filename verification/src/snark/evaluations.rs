//! Looking evaluations up by the label of their polynomial, and gathering
//! them from a list of labelled evaluations.
//!
//! The list stands for a map that is keyed by label. It may come in any
//! order: what places a value is the label, never the position in the list.

use crate::field::Field;
use crate::snark::data_structures::{Evaluations, EvaluationsView};
use crate::snark::labels::{
    decimal_index, entry, entry_at, has_prefix, parse_index, same_text, starts_with, without_prefix,
};
use vstd::prelude::*;

verus! {

/// Whether `label` is the label of a per-instance polynomial: it begins with
/// one of `z_b_`, `f_`, `s_1_`, `s_2_`, `z_2_` and `delta_omega_s_1_`.
pub open spec fn per_instance(label: Seq<char>) -> bool {
    per_instance_prefix(label) is Some
}

/// The per-instance prefix that `label` begins with, if it begins with one.
pub open spec fn per_instance_prefix(label: Seq<char>) -> Option<Seq<char>> {
    if starts_with(label, "z_b_"@) {
        Some("z_b_"@)
    } else if starts_with(label, "f_"@) {
        Some("f_"@)
    } else if starts_with(label, "s_1_"@) {
        Some("s_1_"@)
    } else if starts_with(label, "s_2_"@) {
        Some("s_2_"@)
    } else if starts_with(label, "z_2_"@) {
        Some("z_2_"@)
    } else if starts_with(label, "delta_omega_s_1_"@) {
        Some("delta_omega_s_1_"@)
    } else {
        None
    }
}

/// The instance that a per-instance label names: the index that follows the
/// prefix.
pub open spec fn instance_of(label: Seq<char>) -> Option<usize> {
    match per_instance_prefix(label) {
        Some(prefix) => decimal_index(label.skip(prefix.len() as int)),
        None => None,
    }
}

impl EvaluationsView {
    /// The evaluation of the polynomial called `label`.
    ///
    /// A per-instance label names the entry of its vector at the instance
    /// that follows the prefix, if the vector is that long. The eight fixed
    /// names are `s_m`, `s_l`, `table`, `delta_table_omega`, `g_1`, `g_a`,
    /// `g_b` and `g_c`. Any other label names nothing.
    pub open spec fn evaluation(self, label: Seq<char>) -> Option<Field> {
        if starts_with(label, "z_b_"@) {
            entry(self.z_b_evals, instance_of(label))
        } else if starts_with(label, "f_"@) {
            entry(self.f_evals, instance_of(label))
        } else if starts_with(label, "s_1_"@) {
            entry(self.s_1_evals, instance_of(label))
        } else if starts_with(label, "s_2_"@) {
            entry(self.s_2_evals, instance_of(label))
        } else if starts_with(label, "z_2_"@) {
            entry(self.z_2_evals, instance_of(label))
        } else if starts_with(label, "delta_omega_s_1_"@) {
            entry(self.delta_s_1_omega_evals, instance_of(label))
        } else if label == "s_m"@ {
            Some(self.s_m_eval)
        } else if label == "s_l"@ {
            Some(self.s_l_eval)
        } else if label == "table"@ {
            Some(self.table_eval)
        } else if label == "delta_table_omega"@ {
            Some(self.delta_table_omega_eval)
        } else if label == "g_1"@ {
            Some(self.g_1_eval)
        } else if label == "g_a"@ {
            Some(self.g_a_eval)
        } else if label == "g_b"@ {
            Some(self.g_b_eval)
        } else if label == "g_c"@ {
            Some(self.g_c_eval)
        } else {
            None
        }
    }
}

/// The labels and values of a list of labelled evaluations.
pub open spec fn labelled(map: Seq<(String, Field)>) -> Seq<(Seq<char>, Field)> {
    Seq::new(map.len(), |i: int| (map[i].0@, map[i].1))
}

/// The value of the last entry with the label `label`, where there is one.
pub open spec fn value_of(map: Seq<(Seq<char>, Field)>, label: Seq<char>) -> Option<Field>
    decreases map.len(),
{
    if map.len() == 0 {
        None
    } else if map.last().0 == label {
        Some(map.last().1)
    } else {
        value_of(map.drop_last(), label)
    }
}

/// Whether `label` is one of the eight fixed names.
pub open spec fn fixed_name(label: Seq<char>) -> bool {
    ||| label == "s_m"@
    ||| label == "s_l"@
    ||| label == "table"@
    ||| label == "delta_table_omega"@
    ||| label == "g_1"@
    ||| label == "g_a"@
    ||| label == "g_b"@
    ||| label == "g_c"@
}

/// Whether the list has an entry for each of the eight fixed names.
pub open spec fn has_fixed_names(map: Seq<(Seq<char>, Field)>) -> bool {
    &&& value_of(map, "s_m"@) is Some
    &&& value_of(map, "s_l"@) is Some
    &&& value_of(map, "table"@) is Some
    &&& value_of(map, "delta_table_omega"@) is Some
    &&& value_of(map, "g_1"@) is Some
    &&& value_of(map, "g_a"@) is Some
    &&& value_of(map, "g_b"@) is Some
    &&& value_of(map, "g_c"@) is Some
}

/// No label occurs twice, as in a map that is keyed by label.
pub open spec fn distinct_labels(map: Seq<(Seq<char>, Field)>) -> bool {
    forall|i: int, j: int|
        #![trigger map[i], map[j]]
        0 <= i < map.len() && 0 <= j < map.len() && map[i].0 == map[j].0 ==> i == j
}

/// The instance that `label` names under `prefix`: the index that follows
/// the prefix, where the label begins with it.
pub open spec fn index_under(label: Seq<char>, prefix: Seq<char>) -> Option<usize> {
    if starts_with(label, prefix) {
        decimal_index(label.skip(prefix.len() as int))
    } else {
        None
    }
}

/// Whether entry `k` of the list is labelled with `prefix` and the instance
/// `i`.
pub open spec fn names(map: Seq<(Seq<char>, Field)>, k: int, prefix: Seq<char>, i: usize) -> bool {
    0 <= k < map.len() && index_under(map[k].0, prefix) == Some(i)
}

/// Whether the list has an entry labelled with `prefix` and the instance `i`.
pub open spec fn has_instance(map: Seq<(Seq<char>, Field)>, prefix: Seq<char>, i: usize) -> bool {
    exists|k: int| #[trigger] names(map, k, prefix, i)
}

/// Whether the labels that begin with `prefix` number the instances: each
/// ends with an index below `batch_size`, each instance below `batch_size`
/// has a label, and no two labels name the same instance.
pub open spec fn numbered(map: Seq<(Seq<char>, Field)>, prefix: Seq<char>, batch_size: usize) -> bool {
    &&& forall|k: int|
        0 <= k < map.len() && starts_with((#[trigger] map[k]).0, prefix) ==> index_under(
            map[k].0,
            prefix,
        ) is Some && index_under(map[k].0, prefix).unwrap() < batch_size
    &&& forall|i: usize| i < batch_size ==> #[trigger] has_instance(map, prefix, i)
    &&& forall|j: int, k: int|
        #![trigger map[j], map[k]]
        0 <= j < map.len() && 0 <= k < map.len() && index_under(map[j].0, prefix) is Some
            && index_under(map[j].0, prefix) == index_under(map[k].0, prefix) ==> j == k
}

/// Whether the list holds the evaluations of a batch of `batch_size`
/// instances: no label occurs twice, each fixed name is there, and under
/// each per-instance prefix the labels number the instances.
pub open spec fn well_labelled(map: Seq<(Seq<char>, Field)>, batch_size: usize) -> bool {
    &&& distinct_labels(map)
    &&& has_fixed_names(map)
    &&& numbered(map, "z_b_"@, batch_size)
    &&& numbered(map, "f_"@, batch_size)
    &&& numbered(map, "s_1_"@, batch_size)
    &&& numbered(map, "s_2_"@, batch_size)
    &&& numbered(map, "z_2_"@, batch_size)
    &&& numbered(map, "delta_omega_s_1_"@, batch_size)
}

/// Whether `values` holds, for each entry of the list that is labelled with
/// `prefix`, the value of the entry at the instance that its label names.
pub open spec fn placed(map: Seq<(Seq<char>, Field)>, prefix: Seq<char>, values: Seq<Field>) -> bool {
    forall|k: int|
        0 <= k < map.len() && starts_with((#[trigger] map[k]).0, prefix) ==> entry(
            values,
            index_under(map[k].0, prefix),
        ) == Some(map[k].1)
}

impl EvaluationsView {
    /// Whether each of the six vectors holds the values of the list that are
    /// labelled with its prefix, each at the instance that its label names,
    /// and each single evaluation is the value of its fixed name.
    pub open spec fn gathers(self, map: Seq<(Seq<char>, Field)>) -> bool {
        &&& placed(map, "z_b_"@, self.z_b_evals)
        &&& placed(map, "f_"@, self.f_evals)
        &&& placed(map, "s_1_"@, self.s_1_evals)
        &&& placed(map, "s_2_"@, self.s_2_evals)
        &&& placed(map, "z_2_"@, self.z_2_evals)
        &&& placed(map, "delta_omega_s_1_"@, self.delta_s_1_omega_evals)
        &&& value_of(map, "s_m"@) == Some(self.s_m_eval)
        &&& value_of(map, "s_l"@) == Some(self.s_l_eval)
        &&& value_of(map, "table"@) == Some(self.table_eval)
        &&& value_of(map, "delta_table_omega"@) == Some(self.delta_table_omega_eval)
        &&& value_of(map, "g_1"@) == Some(self.g_1_eval)
        &&& value_of(map, "g_a"@) == Some(self.g_a_eval)
        &&& value_of(map, "g_b"@) == Some(self.g_b_eval)
        &&& value_of(map, "g_c"@) == Some(self.g_c_eval)
    }

    /// Whether every per-instance label and every fixed name of the list
    /// names, in these evaluations, the value that the list holds for it.
    pub open spec fn agrees(self, map: Seq<(Seq<char>, Field)>) -> bool {
        forall|label: Seq<char>|
            (#[trigger] value_of(map, label)) is Some && (per_instance(label) || fixed_name(label))
                ==> self.evaluation(label) == value_of(map, label)
    }
}

/// An entry that gives [`value_of`] its value.
pub proof fn lemma_value_of(map: Seq<(Seq<char>, Field)>, label: Seq<char>) -> (k: int)
    requires
        value_of(map, label) is Some,
    ensures
        0 <= k < map.len(),
        map[k].0 == label,
        value_of(map, label) == Some(map[k].1),
    decreases map.len(),
{
    if map.last().0 == label {
        map.len() - 1
    } else {
        lemma_value_of(map.drop_last(), label)
    }
}

/// In a list in which no label occurs twice, the value of the label of an
/// entry is the value of that entry, wherever in the list it stands.
pub proof fn lemma_value_of_entry(map: Seq<(Seq<char>, Field)>, i: int)
    requires
        distinct_labels(map),
        0 <= i < map.len(),
    ensures
        value_of(map, map[i].0) == Some(map[i].1),
    decreases map.len(),
{
    if i < map.len() - 1 {
        let front = map.drop_last();
        assert(map[map.len() - 1].0 != map[i].0);
        assert forall|a: int, b: int|
            #![trigger front[a], front[b]]
            0 <= a < front.len() && 0 <= b < front.len() && front[a].0 == front[b].0 implies a
            == b by {
            assert(map[a].0 == map[b].0);
        }
        lemma_value_of_entry(front, i);
    }
}

/// A per-instance label of the list names, in values that are placed by
/// their labels, the value that the list holds for it.
pub proof fn lemma_placed_value(
    map: Seq<(Seq<char>, Field)>,
    prefix: Seq<char>,
    values: Seq<Field>,
    label: Seq<char>,
)
    requires
        placed(map, prefix, values),
        value_of(map, label) is Some,
        starts_with(label, prefix),
    ensures
        entry(values, index_under(label, prefix)) == value_of(map, label),
{
    let k = lemma_value_of(map, label);
    assert(starts_with(map[k].0, prefix));
}

/// Returns whether [`distinct_labels`] holds.
pub fn labels_are_distinct(map: &Vec<(String, Field)>) -> (r: bool)
    ensures
        r == distinct_labels(labelled(map@)),
{
    let ghost entries = labelled(map@);
    let mut i: usize = 0;
    while i < map.len()
        invariant
            i <= map@.len(),
            entries == labelled(map@),
            forall|a: int, b: int|
                #![trigger entries[a], entries[b]]
                0 <= a < i && 0 <= b < a && entries[a].0 == entries[b].0 ==> false,
        decreases map@.len() - i,
    {
        let mut j: usize = 0;
        while j < i
            invariant
                j <= i,
                i < map@.len(),
                entries == labelled(map@),
                forall|b: int| 0 <= b < j ==> (#[trigger] entries[b]).0 != entries[i as int].0,
            decreases i - j,
        {
            if same_text(map[i].0.as_str(), map[j].0.as_str()) {
                assert(entries[i as int].0 == entries[j as int].0);
                return false;
            }
            j += 1;
        }
        i += 1;
    }
    proof {
        assert forall|a: int, b: int|
            #![trigger entries[a], entries[b]]
            0 <= a < entries.len() && 0 <= b < entries.len() && entries[a].0
                == entries[b].0 implies a == b by {
            if b < a {
                assert(entries[a].0 != entries[b].0);
            } else if a < b {
                assert(entries[b].0 != entries[a].0);
            }
        }
    }
    true
}

/// The place in the list of an entry that is labelled with `prefix` and the
/// instance `i`, where there is one.
pub fn find_instance(map: &Vec<(String, Field)>, prefix: &str, i: usize) -> (r: Option<usize>)
    ensures
        r is Some <==> has_instance(labelled(map@), prefix@, i),
        r is Some ==> names(labelled(map@), r.unwrap() as int, prefix@, i),
{
    let ghost entries = labelled(map@);
    let n = prefix.unicode_len();
    let mut k: usize = 0;
    while k < map.len()
        invariant
            k <= map@.len(),
            n == prefix@.len(),
            entries == labelled(map@),
            forall|j: int| 0 <= j < k ==> !#[trigger] names(entries, j, prefix@, i),
        decreases map@.len() - k,
    {
        let label = map[k].0.as_str();
        assert(label@ == entries[k as int].0);
        if has_prefix(label, prefix) {
            if parse_index(without_prefix(label, n)) == Some(i) {
                assert(names(entries, k as int, prefix@, i));
                return Some(k);
            }
        }
        k += 1;
    }
    None
}

/// Returns [`value_of`].
pub fn find_label(map: &Vec<(String, Field)>, label: &str) -> (r: Option<Field>)
    ensures
        r == value_of(labelled(map@), label@),
{
    let ghost entries = labelled(map@);
    let mut i: usize = map.len();
    assert(entries.take(i as int) =~= entries);
    while i > 0
        invariant
            i <= map@.len(),
            entries == labelled(map@),
            value_of(entries, label@) == value_of(entries.take(i as int), label@),
        decreases i,
    {
        i -= 1;
        proof {
            let here = entries.take(i + 1);
            assert(here.drop_last() =~= entries.take(i as int));
            assert(here.last() == entries[i as int]);
        }
        if same_text(map[i].0.as_str(), label) {
            return Some(map[i].1);
        }
    }
    None
}

/// The values of the entries that are labelled with `prefix`, each at the
/// instance that its label names, where the labels number the instances
/// below `batch_size`.
pub fn values_by_instance(map: &Vec<(String, Field)>, prefix: &str, batch_size: usize) -> (r: Option<
    Vec<Field>,
>)
    ensures
        r is Some <==> numbered(labelled(map@), prefix@, batch_size),
        r is Some ==> r.unwrap()@.len() == batch_size && placed(
            labelled(map@),
            prefix@,
            r.unwrap()@,
        ),
{
    let ghost entries = labelled(map@);
    let n = prefix.unicode_len();
    let mut places: Vec<usize> = Vec::new();
    let mut values: Vec<Field> = Vec::new();
    let mut i: usize = 0;
    while i < batch_size
        invariant
            i <= batch_size,
            entries == labelled(map@),
            places@.len() == i,
            values@.len() == i,
            forall|t: int|
                0 <= t < i ==> names(entries, #[trigger] places@[t] as int, prefix@, t as usize)
                    && values@[t] == entries[places@[t] as int].1,
        decreases batch_size - i,
    {
        match find_instance(map, prefix, i) {
            Some(k) => {
                places.push(k);
                values.push(map[k].1);
            },
            None => {
                return None;
            },
        }
        i += 1;
    }
    let mut k: usize = 0;
    while k < map.len()
        invariant
            k <= map@.len(),
            n == prefix@.len(),
            entries == labelled(map@),
            places@.len() == batch_size,
            values@.len() == batch_size,
            forall|t: int|
                0 <= t < batch_size ==> names(
                    entries,
                    #[trigger] places@[t] as int,
                    prefix@,
                    t as usize,
                ) && values@[t] == entries[places@[t] as int].1,
            forall|j: int|
                0 <= j < k && starts_with((#[trigger] entries[j]).0, prefix@) ==> index_under(
                    entries[j].0,
                    prefix@,
                ) is Some && index_under(entries[j].0, prefix@).unwrap() < batch_size
                    && places@[index_under(entries[j].0, prefix@).unwrap() as int] == j,
        decreases map@.len() - k,
    {
        let label = map[k].0.as_str();
        assert(label@ == entries[k as int].0);
        if has_prefix(label, prefix) {
            match parse_index(without_prefix(label, n)) {
                Some(index) => {
                    if index >= batch_size {
                        return None;
                    }
                    if places[index] != k {
                        proof {
                            let other = places@[index as int] as int;
                            assert(names(entries, other, prefix@, index));
                            assert(index_under(entries[other].0, prefix@) == index_under(
                                entries[k as int].0,
                                prefix@,
                            ));
                        }
                        return None;
                    }
                },
                None => {
                    return None;
                },
            }
        }
        k += 1;
    }
    proof {
        assert forall|t: usize| t < batch_size implies #[trigger] has_instance(
            entries,
            prefix@,
            t,
        ) by {
            assert(names(entries, places@[t as int] as int, prefix@, t));
        }
        assert forall|a: int, b: int|
            #![trigger entries[a], entries[b]]
            0 <= a < entries.len() && 0 <= b < entries.len() && index_under(
                entries[a].0,
                prefix@,
            ) is Some && index_under(entries[a].0, prefix@) == index_under(
                entries[b].0,
                prefix@,
            ) implies a == b by {
            assert(starts_with(entries[a].0, prefix@));
            assert(starts_with(entries[b].0, prefix@));
        }
        assert forall|j: int|
            0 <= j < entries.len() && starts_with((#[trigger] entries[j]).0, prefix@) implies entry(
            values@,
            index_under(entries[j].0, prefix@),
        ) == Some(entries[j].1) by {
            let t = index_under(entries[j].0, prefix@).unwrap() as int;
            assert(places@[t] == j);
        }
    }
    Some(values)
}

impl Evaluations {
    /// Gathers the evaluations from a list of labelled evaluations, where
    /// the list is well labelled for a batch of `batch_size` instances: the
    /// value of each per-instance label goes to the instance that the label
    /// names, whatever the order of the list.
    pub fn try_from_map(map: &Vec<(String, Field)>, batch_size: usize) -> (r: Option<Evaluations>)
        ensures
            r is Some <==> well_labelled(labelled(map@), batch_size),
            r is Some ==> r.unwrap()@.sized(batch_size as nat),
            r is Some ==> r.unwrap()@.gathers(labelled(map@)),
            r is Some ==> r.unwrap()@.agrees(labelled(map@)),
    {
        let ghost entries = labelled(map@);
        if !labels_are_distinct(map) {
            return None;
        }
        let Some(z_b_evals) = values_by_instance(map, "z_b_", batch_size) else {
            return None;
        };
        let Some(f_evals) = values_by_instance(map, "f_", batch_size) else {
            return None;
        };
        let Some(s_1_evals) = values_by_instance(map, "s_1_", batch_size) else {
            return None;
        };
        let Some(s_2_evals) = values_by_instance(map, "s_2_", batch_size) else {
            return None;
        };
        let Some(z_2_evals) = values_by_instance(map, "z_2_", batch_size) else {
            return None;
        };
        let Some(delta_s_1_omega_evals) = values_by_instance(map, "delta_omega_s_1_", batch_size) else {
            return None;
        };
        let Some(s_m_eval) = find_label(map, "s_m") else {
            return None;
        };
        let Some(s_l_eval) = find_label(map, "s_l") else {
            return None;
        };
        let Some(table_eval) = find_label(map, "table") else {
            return None;
        };
        let Some(delta_table_omega_eval) = find_label(map, "delta_table_omega") else {
            return None;
        };
        let Some(g_1_eval) = find_label(map, "g_1") else {
            return None;
        };
        let Some(g_a_eval) = find_label(map, "g_a") else {
            return None;
        };
        let Some(g_b_eval) = find_label(map, "g_b") else {
            return None;
        };
        let Some(g_c_eval) = find_label(map, "g_c") else {
            return None;
        };
        let r = Evaluations {
            z_b_evals,
            f_evals,
            s_1_evals,
            s_2_evals,
            z_2_evals,
            delta_s_1_omega_evals,
            s_m_eval,
            s_l_eval,
            table_eval,
            delta_table_omega_eval,
            g_1_eval,
            g_a_eval,
            g_b_eval,
            g_c_eval,
        };
        proof {
            let e = r@;
            assert forall|label: Seq<char>|
                (#[trigger] value_of(entries, label)) is Some && (per_instance(label) || fixed_name(
                    label,
                )) implies e.evaluation(label) == value_of(entries, label) by {
                if starts_with(label, "z_b_"@) {
                    lemma_placed_value(entries, "z_b_"@, e.z_b_evals, label);
                } else if starts_with(label, "f_"@) {
                    lemma_placed_value(entries, "f_"@, e.f_evals, label);
                } else if starts_with(label, "s_1_"@) {
                    lemma_placed_value(entries, "s_1_"@, e.s_1_evals, label);
                } else if starts_with(label, "s_2_"@) {
                    lemma_placed_value(entries, "s_2_"@, e.s_2_evals, label);
                } else if starts_with(label, "z_2_"@) {
                    lemma_placed_value(entries, "z_2_"@, e.z_2_evals, label);
                } else if starts_with(label, "delta_omega_s_1_"@) {
                    lemma_placed_value(entries, "delta_omega_s_1_"@, e.delta_s_1_omega_evals, label);
                }
            }
        }
        Some(r)
    }

    /// Gathers the evaluations from a list of labelled evaluations that is
    /// well labelled for a batch of `batch_size` instances: the value of
    /// each per-instance label goes to the instance that the label names,
    /// whatever the order of the list.
    pub fn from_map(map: &Vec<(String, Field)>, batch_size: usize) -> (r: Evaluations)
        requires
            well_labelled(labelled(map@), batch_size),
        ensures
            r@.sized(batch_size as nat),
            r@.gathers(labelled(map@)),
            r@.agrees(labelled(map@)),
    {
        Evaluations::try_from_map(map, batch_size).unwrap()
    }

    /// The evaluation of the polynomial called `label`. The index at the end
    /// of a per-instance label has to be a number.
    pub fn get(&self, label: &str) -> (r: Option<Field>)
        requires
            per_instance(label@) ==> instance_of(label@) is Some,
        ensures
            r == self@.evaluation(label@),
    {
        proof {
            reveal_strlit("z_b_");
            reveal_strlit("f_");
            reveal_strlit("s_1_");
            reveal_strlit("s_2_");
            reveal_strlit("z_2_");
            reveal_strlit("delta_omega_s_1_");
        }
        if has_prefix(label, "z_b_") {
            entry_at(&self.z_b_evals, parse_index(without_prefix(label, 4)))
        } else if has_prefix(label, "f_") {
            entry_at(&self.f_evals, parse_index(without_prefix(label, 2)))
        } else if has_prefix(label, "s_1_") {
            entry_at(&self.s_1_evals, parse_index(without_prefix(label, 4)))
        } else if has_prefix(label, "s_2_") {
            entry_at(&self.s_2_evals, parse_index(without_prefix(label, 4)))
        } else if has_prefix(label, "z_2_") {
            entry_at(&self.z_2_evals, parse_index(without_prefix(label, 4)))
        } else if has_prefix(label, "delta_omega_s_1_") {
            entry_at(&self.delta_s_1_omega_evals, parse_index(without_prefix(label, 16)))
        } else if same_text(label, "s_m") {
            Some(self.s_m_eval)
        } else if same_text(label, "s_l") {
            Some(self.s_l_eval)
        } else if same_text(label, "table") {
            Some(self.table_eval)
        } else if same_text(label, "delta_table_omega") {
            Some(self.delta_table_omega_eval)
        } else if same_text(label, "g_1") {
            Some(self.g_1_eval)
        } else if same_text(label, "g_a") {
            Some(self.g_a_eval)
        } else if same_text(label, "g_b") {
            Some(self.g_b_eval)
        } else if same_text(label, "g_c") {
            Some(self.g_c_eval)
        } else {
            None
        }
    }
}

} // verus!
