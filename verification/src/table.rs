//! A small table from names to values that can be copied and walked in order.

use crate::text;
use vstd::prelude::*;
use vstd::string::*;

verus! {

/// Rows of a name and a value; no name stands twice.
pub struct Table<V> {
    pub rows: Vec<(String, V)>,
}

/// The first row of `rows` that is named `key`.
pub open spec fn row_of<V>(rows: Seq<(String, V)>, key: Seq<char>) -> Option<int>
    decreases rows.len(),
{
    if rows.len() == 0 {
        None
    } else if row_of(rows.drop_last(), key) is Some {
        row_of(rows.drop_last(), key)
    } else if rows.last().0@ == key {
        Some(rows.len() - 1)
    } else {
        None
    }
}

proof fn lemma_row_of<V>(rows: Seq<(String, V)>, key: Seq<char>)
    ensures
        match row_of(rows, key) {
            Some(i) => 0 <= i < rows.len() && rows[i].0@ == key && forall|j: int|
                0 <= j < i ==> (#[trigger] rows[j]).0@ != key,
            None => forall|j: int| 0 <= j < rows.len() ==> (#[trigger] rows[j]).0@ != key,
        },
    decreases rows.len(),
{
    if rows.len() > 0 {
        let before = rows.drop_last();
        lemma_row_of(before, key);
        assert(forall|j: int| 0 <= j < before.len() ==> before[j] == rows[j]);
        assert forall|j: int| 0 <= j < rows.len() && row_of(rows, key) is None implies (
        #[trigger] rows[j]).0@ != key by {
            if j < before.len() {
                assert(before[j] == rows[j]);
            }
        }
        if row_of(before, key) is None && rows.last().0@ == key {
            assert forall|j: int| 0 <= j < rows.len() - 1 implies (#[trigger] rows[j]).0@ != key by {
                assert(before[j] == rows[j]);
            }
        }
    }
}

/// No name stands twice.
pub open spec fn distinct<V>(rows: Seq<(String, V)>) -> bool {
    forall|i: int, j: int| 0 <= i < j < rows.len() ==> (#[trigger] rows[i]).0@ != (
    #[trigger] rows[j]).0@
}

impl<V> View for Table<V> {
    type V = Map<Seq<char>, V>;

    open spec fn view(&self) -> Map<Seq<char>, V> {
        Map::new(
            |key: Seq<char>| row_of(self.rows@, key) is Some,
            |key: Seq<char>| self.rows@[row_of(self.rows@, key)->0].1,
        )
    }
}

impl<V> Table<V> {
    /// No name stands twice.
    pub open spec fn wf(self) -> bool {
        distinct(self.rows@)
    }

    /// An empty table.
    pub fn new() -> (r: Table<V>)
        ensures
            r.wf(),
            r@ == Map::<Seq<char>, V>::empty(),
            r.rows@.len() == 0,
    {
        let r = Table { rows: Vec::new() };
        assert(r@ =~= Map::<Seq<char>, V>::empty());
        r
    }

    fn position(&self, key: &str) -> (r: Option<usize>)
        ensures
            match r {
                Some(i) => row_of(self.rows@, key@) == Some(i as int) && i < self.rows@.len(),
                None => row_of(self.rows@, key@) is None,
            },
    {
        let mut i: usize = 0;
        proof {
            lemma_row_of(self.rows@, key@);
        }
        while i < self.rows.len()
            invariant
                i <= self.rows@.len(),
                forall|j: int| 0 <= j < i ==> (#[trigger] self.rows@[j]).0@ != key@,
                match row_of(self.rows@, key@) {
                    Some(i) => 0 <= i < self.rows@.len() && self.rows@[i].0@ == key@ && forall|j: int|
                        0 <= j < i ==> (#[trigger] self.rows@[j]).0@ != key@,
                    None => forall|j: int|
                        0 <= j < self.rows@.len() ==> (#[trigger] self.rows@[j]).0@ != key@,
                },
            decreases self.rows@.len() - i,
        {
            if text::same(self.rows[i].0.as_str(), key) {
                return Some(i);
            }
            i += 1;
        }
        None
    }

    /// The value of a name.
    pub fn get(&self, key: &str) -> (r: Option<&V>)
        ensures
            match r {
                Some(v) => self@.contains_key(key@) && self@[key@] == *v,
                None => !self@.contains_key(key@),
            },
    {
        match self.position(key) {
            Some(i) => Some(&self.rows[i].1),
            None => None,
        }
    }

    /// Gives a name a value, in the place of the one that it had.
    pub fn insert(&mut self, key: String, value: V)
        requires
            old(self).wf(),
        ensures
            final(self).wf(),
            final(self)@ == old(self)@.insert(key@, value),
            final(self).rows@.len() > 0,
    {
        let ghost before = self.rows@;
        let ghost was = self@;
        match self.position(key.as_str()) {
            Some(i) => {
                let ghost name = key@;
                self.rows.set(i, (key, value));
                proof {
                    lemma_row_of(before, name);
                    assert forall|k: Seq<char>| row_of(self.rows@, k) == row_of(before, k) by {
                        lemma_row_of(before, k);
                        lemma_row_of(self.rows@, k);
                        lemma_same_rows(before, self.rows@, k);
                    }
                    assert(self@ =~= was.insert(name, value)) by {
                        assert forall|k: Seq<char>| #[trigger] self@.contains_key(k) implies self@[k]
                            == was.insert(name, value)[k] by {
                            lemma_row_of(before, k);
                        }
                    }
                }
            },
            None => {
                let ghost name = key@;
                self.rows.push((key, value));
                proof {
                    lemma_row_of(before, name);
                    assert(self.rows@.drop_last() == before);
                    assert forall|i: int, j: int| 0 <= i < j < self.rows@.len() implies (
                    #[trigger] self.rows@[i]).0@ != (#[trigger] self.rows@[j]).0@ by {
                        assert(self.rows@[i] == before[i]);
                    }
                    assert forall|k: Seq<char>| #[trigger] self@.contains_key(k) implies self@[k]
                        == was.insert(name, value)[k] by {
                        lemma_row_of(before, k);
                    }
                    assert(self@ =~= was.insert(name, value));
                }
            },
        }
    }
}

proof fn lemma_same_rows<V>(a: Seq<(String, V)>, b: Seq<(String, V)>, key: Seq<char>)
    requires
        a.len() == b.len(),
        forall|i: int| 0 <= i < a.len() ==> (#[trigger] a[i]).0@ == b[i].0@,
    ensures
        row_of(a, key) == row_of(b, key),
    decreases a.len(),
{
    if a.len() > 0 {
        assert forall|i: int| 0 <= i < a.drop_last().len() implies (#[trigger] a.drop_last()[i]).0@
            == b.drop_last()[i].0@ by {
            assert(a[i].0@ == b[i].0@);
        }
        lemma_same_rows(a.drop_last(), b.drop_last(), key);
        assert(a[a.len() - 1].0@ == b[b.len() - 1].0@);
    }
}

impl Clone for Table<String> {
    fn clone(&self) -> (r: Self)
        ensures
            r.rows@ == self.rows@,
            r@ == self@,
            self.wf() ==> r.wf(),
    {
        let mut rows: Vec<(String, String)> = Vec::new();
        let mut i: usize = 0;
        while i < self.rows.len()
            invariant
                i <= self.rows@.len(),
                rows@ == self.rows@.take(i as int),
            decreases self.rows@.len() - i,
        {
            rows.push((self.rows[i].0.clone(), self.rows[i].1.clone()));
            assert(rows@ == self.rows@.take(i + 1));
            i += 1;
        }
        assert(rows@ == self.rows@);
        Table { rows }
    }
}

/// A table of tables of text, by its characters.
pub open spec fn nested(t: Table<Table<String>>) -> Map<Seq<char>, Map<Seq<char>, Seq<char>>> {
    t@.map_values(|v: Table<String>| values_of(v))
}

/// A table of text, by its characters.
pub open spec fn values_of(t: Table<String>) -> Map<Seq<char>, Seq<char>> {
    t@.map_values(|s: String| s@)
}

/// No name stands twice, in the table or in a table in it.
pub open spec fn nested_wf(t: Table<Table<String>>) -> bool {
    t.wf() && forall|i: int| 0 <= i < t.rows@.len() ==> (#[trigger] t.rows@[i]).1.wf()
}

impl Clone for Table<Table<String>> {
    fn clone(&self) -> (r: Self)
        ensures
            nested(r) == nested(*self),
            nested_wf(*self) ==> nested_wf(r),
    {
        let mut rows: Vec<(String, Table<String>)> = Vec::new();
        let mut i: usize = 0;
        while i < self.rows.len()
            invariant
                i <= self.rows@.len(),
                rows@.len() == i,
                forall|j: int|
                    0 <= j < i ==> (#[trigger] rows@[j]).0 == self.rows@[j].0 && rows@[j].1@
                        == self.rows@[j].1@ && (self.rows@[j].1.wf() ==> rows@[j].1.wf()),
            decreases self.rows@.len() - i,
        {
            rows.push((self.rows[i].0.clone(), self.rows[i].1.clone()));
            i += 1;
        }
        let r = Table { rows };
        proof {
            assert forall|k: Seq<char>| row_of(r.rows@, k) == row_of(self.rows@, k) by {
                lemma_same_rows(r.rows@, self.rows@, k);
                lemma_row_of(r.rows@, k);
            }
            assert(nested(r) =~= nested(*self)) by {
                assert forall|k: Seq<char>| #[trigger] nested(r).contains_key(k) implies nested(r)[k]
                    == nested(*self)[k] by {
                    lemma_row_of(r.rows@, k);
                }
            }
            if nested_wf(*self) {
                assert forall|i: int, j: int| 0 <= i < j < r.rows@.len() implies (
                #[trigger] r.rows@[i]).0@ != (#[trigger] r.rows@[j]).0@ by {
                    assert(self.rows@[i].0@ != self.rows@[j].0@);
                }
            }
        }
        r
    }
}

/// A table without rows is one without values.
pub proof fn lemma_no_rows(t: Table<String>)
    ensures
        t.rows@.len() == 0 <==> values_of(t) == Map::<Seq<char>, Seq<char>>::empty(),
{
    if t.rows@.len() > 0 {
        let k = t.rows@[0].0@;
        lemma_row_of(t.rows@, k);
        assert(values_of(t).contains_key(k));
    } else {
        assert(values_of(t) =~= Map::<Seq<char>, Seq<char>>::empty());
    }
}

/// Puts a table of text under a name.
pub fn insert_nested(t: &mut Table<Table<String>>, key: String, value: Table<String>)
    requires
        nested_wf(*old(t)),
        value.wf(),
    ensures
        nested_wf(*final(t)),
        nested(*final(t)) == nested(*old(t)).insert(key@, values_of(value)),
{
    let ghost before = *t;
    let ghost name = key@;
    t.insert(key, value);
    proof {
        assert(nested(*t) =~= nested(before).insert(name, values_of(value)));
        assert forall|i: int| 0 <= i < t.rows@.len() implies (#[trigger] t.rows@[i]).1.wf() by {
            let k = t.rows@[i].0@;
            lemma_row_of(t.rows@, k);
            let j = row_of(t.rows@, k)->0;
            assert(t.rows@[j].0@ == t.rows@[i].0@);
            assert(t@[k] == t.rows@[i].1);
            if k != name {
                lemma_row_of(before.rows@, k);
                let b = row_of(before.rows@, k);
                assert(before@.insert(name, value).contains_key(k));
                assert(before@[k] == before.rows@[b->0].1);
            }
        }
    }
}

/// A name has the value of the row that it stands in, and no value where it stands in none.
pub proof fn law_value_is_that_of_the_row(t: Table<String>, i: int, key: Seq<char>)
    requires
        t.wf(),
    ensures
        0 <= i < t.rows@.len() ==> values_of(t).contains_key(t.rows@[i].0@) && values_of(
            t,
        )[t.rows@[i].0@] == t.rows@[i].1@,
        (forall|j: int| 0 <= j < t.rows@.len() ==> (#[trigger] t.rows@[j]).0@ != key)
            ==> !values_of(t).contains_key(key),
{
    lemma_row_of(t.rows@, key);
    if 0 <= i < t.rows@.len() {
        let k = t.rows@[i].0@;
        lemma_row_of(t.rows@, k);
        let j = row_of(t.rows@, k)->0;
        assert(t.rows@[j].0@ == t.rows@[i].0@);
    }
}

} // verus!
