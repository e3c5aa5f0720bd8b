//! Lookup tables: finite maps from pairs of field elements to field elements
//! that remember the order in which their keys arrived.

use crate::field::Field;
use vstd::prelude::*;

verus! {

/// One row of a table: the two inputs and the output.
#[derive(Clone, Copy, Debug, PartialEq, Eq, Structural)]
pub struct Row {
    pub a: Field,
    pub b: Field,
    pub c: Field,
}

impl Row {
    /// The inputs of the row, as integers.
    pub open spec fn key(self) -> (nat, nat) {
        (self.a@, self.b@)
    }
}

/// An insertion-ordered map from input pairs to outputs.
#[derive(Debug)]
pub struct LookupTable {
    rows: Vec<Row>,
}

impl View for LookupTable {
    type V = Map<(nat, nat), nat>;

    closed spec fn view(&self) -> Map<(nat, nat), nat> {
        Map::new(
            |k: (nat, nat)| has_key(self.rows@, k),
            |k: (nat, nat)| self.rows@[position(self.rows@, k)].c@,
        )
    }
}

/// Whether some row has the inputs `k`.
pub open spec fn has_key(rows: Seq<Row>, k: (nat, nat)) -> bool {
    exists|i: int| 0 <= i < rows.len() && #[trigger] rows[i].key() == k
}

/// A row with the inputs `k`, where there is one.
pub open spec fn position(rows: Seq<Row>, k: (nat, nat)) -> int {
    choose|i: int| 0 <= i < rows.len() && #[trigger] rows[i].key() == k
}

/// No two rows share their inputs.
pub open spec fn distinct_keys(rows: Seq<Row>) -> bool {
    forall|i: int, j: int|
        0 <= i < rows.len() && 0 <= j < rows.len() && #[trigger] rows[i].key() == #[trigger] rows[j].key()
            ==> i == j
}

impl Clone for LookupTable {
    fn clone(&self) -> (r: LookupTable)
        ensures
            r@ == self@,
            r.order() == self.order(),
    {
        proof {
            use_type_invariant(self);
        }
        let mut rows: Vec<Row> = Vec::new();
        let mut i: usize = 0;
        while i < self.rows.len()
            invariant
                i <= self.rows@.len(),
                rows@ == self.rows@.take(i as int),
            decreases self.rows@.len() - i,
        {
            rows.push(self.rows[i]);
            assert(rows@ =~= self.rows@.take(i + 1));
            i += 1;
        }
        assert(rows@ =~= self.rows@);
        LookupTable { rows }
    }
}

impl LookupTable {
    #[verifier::type_invariant]
    spec fn well_formed(self) -> bool {
        distinct_keys(self.rows@)
    }

    /// The keys in the order in which they were first filled in.
    pub closed spec fn order(self) -> Seq<(nat, nat)> {
        Seq::new(self.rows@.len(), |i: int| self.rows@[i].key())
    }

    /// The output that the table gives for the inputs `(a, b)`, if any.
    pub open spec fn get(self, a: nat, b: nat) -> Option<nat> {
        if self@.contains_key((a, b)) {
            Some(self@[(a, b)])
        } else {
            None
        }
    }

    /// The table without rows.
    pub fn new() -> (r: LookupTable)
        ensures
            r@ == Map::<(nat, nat), nat>::empty(),
            r.order() == Seq::<(nat, nat)>::empty(),
    {
        let r = LookupTable { rows: Vec::new() };
        assert(r@ =~= Map::<(nat, nat), nat>::empty());
        assert(r.order() =~= Seq::<(nat, nat)>::empty());
        r
    }

    /// The number of rows.
    pub fn len(&self) -> (r: usize)
        ensures
            r == self.order().len(),
    {
        self.rows.len()
    }

    fn find(&self, a: &Field, b: &Field) -> (r: Option<usize>)
        ensures
            r is Some <==> has_key(self.rows@, (a@, b@)),
            r is Some ==> r.unwrap() < self.rows@.len() && self.rows@[r.unwrap() as int].key() == (
                a@,
                b@,
            ) && position(self.rows@, (a@, b@)) == r.unwrap(),
    {
        proof {
            use_type_invariant(self);
        }
        let mut i: usize = 0;
        while i < self.rows.len()
            invariant
                i <= self.rows@.len(),
                distinct_keys(self.rows@),
                forall|j: int| 0 <= j < i ==> #[trigger] self.rows@[j].key() != (a@, b@),
            decreases self.rows@.len() - i,
        {
            let row = self.rows[i];
            if row.a == *a && row.b == *b {
                assert(self.rows@[i as int].key() == (a@, b@));
                return Some(i);
            }
            proof {
                if row.key() == (a@, b@) {
                    row.a.lemma_view_injective(*a);
                    row.b.lemma_view_injective(*b);
                }
            }
            i += 1;
        }
        None
    }

    /// The output for the inputs `key`, if the table has a row for them.
    pub fn lookup(&self, key: &[Field; 2]) -> (r: Option<Field>)
        ensures
            r is Some <==> self.get(key[0]@, key[1]@) is Some,
            r is Some ==> r.unwrap()@ == self.get(key[0]@, key[1]@).unwrap(),
    {
        match self.find(&key[0], &key[1]) {
            Some(i) => Some(self.rows[i].c),
            None => None,
        }
    }

    /// Maps the inputs `key` to `value`. A key that is new goes to the end of
    /// the order; one that is present keeps its place. Returns the output
    /// that `key` had before.
    pub fn fill(&mut self, key: [Field; 2], value: Field) -> (r: Option<Field>)
        ensures
            final(self)@ == old(self)@.insert((key[0]@, key[1]@), value@),
            r is Some <==> old(self).get(key[0]@, key[1]@) is Some,
            r is Some ==> r.unwrap()@ == old(self).get(key[0]@, key[1]@).unwrap(),
            r is Some ==> final(self).order() == old(self).order(),
            r is None ==> final(self).order() == old(self).order().push((key[0]@, key[1]@)),
    {
        proof {
            use_type_invariant(&*self);
        }
        let ghost k = (key[0]@, key[1]@);
        let ghost before = self.rows@;
        let row = Row { a: key[0], b: key[1], c: value };
        match self.find(&key[0], &key[1]) {
            Some(i) => {
                let previous = self.rows[i].c;
                let mut rows = Vec::new();
                std::mem::swap(&mut rows, &mut self.rows);
                rows[i] = row;
                proof {
                    assert forall|j: int| 0 <= j < rows@.len() implies #[trigger] rows@[j].key()
                        == before[j].key() by {}
                }
                self.rows = rows;
                proof {
                    let after = self.rows@;
                    assert forall|j: int| 0 <= j < after.len() implies #[trigger] after[j].key()
                        == before[j].key() by {}
                    assert forall|q: (nat, nat)| has_key(after, q) == has_key(before, q) by {
                        if has_key(after, q) {
                            let j = position(after, q);
                            assert(before[j].key() == q);
                        }
                        if has_key(before, q) {
                            let j = position(before, q);
                            assert(after[j].key() == q);
                        }
                    }
                    assert forall|q: (nat, nat)| has_key(before, q) implies position(after, q)
                        == position(before, q) by {
                        let j = position(before, q);
                        assert(after[j].key() == q);
                        let j2 = position(after, q);
                        assert(before[j2].key() == q);
                    }
                    assert(final(self)@ =~= old(self)@.insert(k, value@));
                    assert(final(self).order() =~= old(self).order());
                }
                Some(previous)
            },
            None => {
                let mut rows = Vec::new();
                std::mem::swap(&mut rows, &mut self.rows);
                rows.push(row);
                self.rows = rows;
                proof {
                    let after = self.rows@;
                    assert(after[before.len() as int].key() == k);
                    assert forall|q: (nat, nat)| has_key(after, q) == (has_key(before, q) || q
                        == k) by {
                        if has_key(after, q) {
                            let j = position(after, q);
                            if j < before.len() {
                                assert(before[j].key() == q);
                            }
                        }
                        if has_key(before, q) {
                            let j = position(before, q);
                            assert(after[j].key() == q);
                        }
                    }
                    assert forall|q: (nat, nat)| has_key(before, q) implies after[position(
                        after,
                        q,
                    )].c == before[position(before, q)].c by {
                        let j = position(before, q);
                        assert(after[j].key() == q);
                        let j2 = position(after, q);
                        assert(j2 == j);
                    }
                    assert(has_key(after, k));
                    assert(position(after, k) == before.len());
                    assert(final(self)@ =~= old(self)@.insert(k, value@));
                    assert(final(self).order() =~= old(self).order().push(k));
                }
                None
            },
        }
    }
}

} // verus!
