//! A table of keys and values in which no key stands twice.
use vstd::prelude::*;

use crate::bytes::same_array;
use crate::types::{CellDep, OutPoint, ScriptId};

verus! {

/// A key that can be told from another of its type.
pub trait TableKey: Copy {
    fn same_key(&self, other: &Self) -> (same: bool)
        ensures
            same == (*self == *other),
    ;
}

impl TableKey for ScriptId {
    fn same_key(&self, other: &Self) -> (same: bool) {
        self.same(other)
    }
}

impl TableKey for OutPoint {
    fn same_key(&self, other: &Self) -> (same: bool) {
        self.same(other)
    }
}

impl TableKey for [u8; 20] {
    fn same_key(&self, other: &Self) -> (same: bool) {
        same_array(self, other)
    }
}

/// A value that can be copied.
pub trait TableValue: Sized {
    fn copy_value(&self) -> (copied: Self)
        ensures
            copied == *self,
    ;
}

impl TableValue for (CellDep, String) {
    fn copy_value(&self) -> (copied: Self) {
        (self.0, self.1.clone())
    }
}

/// The row of a key.
pub open spec fn row_of<K, V>(rows: Seq<(K, V)>, key: K, row: int) -> bool {
    0 <= row < rows.len() && rows[row].0 == key
}

/// The map that rows without a repeated key stand for.
pub open spec fn rows_as_map<K, V>(rows: Seq<(K, V)>) -> Map<K, V> {
    Map::new(
        |key: K| exists|row: int| row_of(rows, key, row),
        |key: K| rows[choose|row: int| row_of(rows, key, row)].1,
    )
}

/// No key stands in two rows.
pub open spec fn distinct_keys<K, V>(rows: Seq<(K, V)>) -> bool {
    forall|i: int, j: int| 0 <= i < j < rows.len() ==> rows[i].0 != rows[j].0
}

/// A table of keys and values.
#[derive(Debug)]
pub struct Table<K, V> {
    rows: Vec<(K, V)>,
}

impl<K, V> View for Table<K, V> {
    type V = Map<K, V>;

    closed spec fn view(&self) -> Map<K, V> {
        rows_as_map(self.rows@)
    }
}

impl<K, V> Table<K, V> {
    /// No key stands twice.
    pub closed spec fn wf(&self) -> bool {
        distinct_keys(self.rows@)
    }
}

proof fn lemma_row<K, V>(rows: Seq<(K, V)>, key: K, row: int)
    requires
        distinct_keys(rows),
        row_of(rows, key, row),
    ensures
        rows_as_map(rows).dom().contains(key),
        rows_as_map(rows)[key] == rows[row].1,
{
    let chosen = choose|r: int| row_of(rows, key, r);
    assert(row_of(rows, key, chosen));
    assert(chosen == row) by {
        if chosen < row {
            assert(rows[chosen].0 != rows[row].0);
        } else if row < chosen {
            assert(rows[row].0 != rows[chosen].0);
        }
    }
}

proof fn lemma_pushed<K, V>(rows: Seq<(K, V)>, key: K, value: V)
    requires
        distinct_keys(rows),
        forall|i: int| 0 <= i < rows.len() ==> rows[i].0 != key,
    ensures
        distinct_keys(rows.push((key, value))),
        rows_as_map(rows.push((key, value))) == rows_as_map(rows).insert(key, value),
        !rows_as_map(rows).dom().contains(key),
{
    let pushed = rows.push((key, value));
    assert forall|k: K| #[trigger]
        rows_as_map(pushed).dom().contains(k) == rows_as_map(rows).insert(
            key,
            value,
        ).dom().contains(k) by {
        if rows_as_map(rows).dom().contains(k) {
            let row = choose|r: int| row_of(rows, k, r);
            assert(row_of(pushed, k, row));
        }
        if k == key {
            assert(row_of(pushed, k, rows.len() as int));
        }
        if rows_as_map(pushed).dom().contains(k) && k != key {
            let row = choose|r: int| row_of(pushed, k, r);
            assert(row_of(rows, k, row));
        }
    }
    assert forall|k: K| rows_as_map(pushed).dom().contains(k) implies #[trigger] rows_as_map(
        pushed,
    )[k] == rows_as_map(rows).insert(key, value)[k] by {
        if k == key {
            lemma_row(pushed, k, rows.len() as int);
        } else {
            let row = choose|r: int| row_of(pushed, k, r);
            assert(row_of(rows, k, row));
            lemma_row(pushed, k, row);
            lemma_row(rows, k, row);
        }
    }
    assert(rows_as_map(pushed) =~= rows_as_map(rows).insert(key, value));
}

proof fn lemma_removed<K, V>(rows: Seq<(K, V)>, row: int)
    requires
        distinct_keys(rows),
        0 <= row < rows.len(),
    ensures
        distinct_keys(rows.remove(row)),
        rows_as_map(rows.remove(row)) == rows_as_map(rows).remove(rows[row].0),
        rows_as_map(rows).dom().contains(rows[row].0),
        rows_as_map(rows)[rows[row].0] == rows[row].1,
        forall|i: int|
            0 <= i < rows.remove(row).len() ==> rows.remove(row)[i].0 != rows[row].0,
{
    let key = rows[row].0;
    let removed = rows.remove(row);
    lemma_row(rows, key, row);
    assert forall|i: int| 0 <= i < removed.len() implies removed[i].0 != key by {
        if i < row {
            assert(removed[i] == rows[i]);
        } else {
            assert(removed[i] == rows[i + 1]);
        }
    }
    assert forall|k: K| #[trigger]
        rows_as_map(removed).dom().contains(k) == rows_as_map(rows).remove(key).dom().contains(
            k,
        ) by {
        if rows_as_map(removed).dom().contains(k) {
            let r = choose|r: int| row_of(removed, k, r);
            assert(row_of(rows, k, if r < row { r } else { r + 1 }));
        }
        if rows_as_map(rows).dom().contains(k) && k != key {
            let r = choose|r: int| row_of(rows, k, r);
            assert(row_of(removed, k, if r < row { r } else { r - 1 }));
        }
    }
    assert forall|k: K| rows_as_map(removed).dom().contains(k) implies #[trigger] rows_as_map(
        removed,
    )[k] == rows_as_map(rows).remove(key)[k] by {
        let r = choose|r: int| row_of(removed, k, r);
        let origin = if r < row { r } else { r + 1 };
        assert(row_of(rows, k, origin));
        lemma_row(rows, k, origin);
        lemma_row(removed, k, r);
    }
    assert(rows_as_map(removed) =~= rows_as_map(rows).remove(key));
}

impl<K: TableKey, V> Table<K, V> {
    /// A table without rows.
    pub fn new() -> (table: Self)
        ensures
            table.wf(),
            table@ == Map::<K, V>::empty(),
    {
        let table = Table { rows: Vec::new() };
        assert(rows_as_map(table.rows@) =~= Map::<K, V>::empty());
        table
    }

    /// The row of a key, or the number of rows where it has none.
    fn find(&self, key: &K) -> (row: usize)
        requires
            self.wf(),
        ensures
            row <= self.rows@.len(),
            row < self.rows@.len() <==> self@.dom().contains(*key),
            row < self.rows@.len() ==> self.rows@[row as int] == (*key, self@[*key]),
            row == self.rows@.len() ==> forall|i: int|
                0 <= i < self.rows@.len() ==> self.rows@[i].0 != *key,
    {
        let n: usize = self.rows.len();
        let mut row: usize = 0;
        while row < n
            invariant
                row <= n,
                n == self.rows@.len(),
                self.wf(),
                forall|i: int| 0 <= i < row ==> self.rows@[i].0 != *key,
            decreases n - row,
        {
            if self.rows[row].0.same_key(key) {
                proof {
                    lemma_row(self.rows@, *key, row as int);
                }
                return row;
            }
            row += 1;
        }
        row
    }

    /// Sets the value of a key and hands back the one it had.
    pub fn insert(&mut self, key: K, value: V) -> (previous: Option<V>)
        requires
            old(self).wf(),
        ensures
            final(self).wf(),
            final(self)@ == old(self)@.insert(key, value),
            previous == (if old(self)@.dom().contains(key) {
                Some(old(self)@[key])
            } else {
                None
            }),
    {
        let previous = self.remove(&key);
        proof {
            assert forall|i: int| 0 <= i < self.rows@.len() implies self.rows@[i].0 != key by {
                if self.rows@[i].0 == key {
                    assert(row_of(self.rows@, key, i));
                    assert(self@.dom().contains(key));
                }
            }
            lemma_pushed(self.rows@, key, value);
            assert(old(self)@.remove(key).insert(key, value) =~= old(self)@.insert(key, value));
        }
        self.rows.push((key, value));
        previous
    }

    /// Takes a key out of the table and hands back its value.
    pub fn remove(&mut self, key: &K) -> (previous: Option<V>)
        requires
            old(self).wf(),
        ensures
            final(self).wf(),
            final(self)@ == old(self)@.remove(*key),
            previous == (if old(self)@.dom().contains(*key) {
                Some(old(self)@[*key])
            } else {
                None
            }),
    {
        let row: usize = self.find(key);
        if row < self.rows.len() {
            proof {
                lemma_removed(self.rows@, row as int);
            }
            let taken = self.rows.remove(row);
            Some(taken.1)
        } else {
            assert(self@.remove(*key) =~= self@);
            None
        }
    }

    /// Tells whether a key is in the table.
    pub fn contains_key(&self, key: &K) -> (found: bool)
        requires
            self.wf(),
        ensures
            found == self@.dom().contains(*key),
    {
        self.find(key) < self.rows.len()
    }

    /// The value of a key.
    pub fn get(&self, key: &K) -> (value: Option<&V>)
        requires
            self.wf(),
        ensures
            value == (if self@.dom().contains(*key) {
                Some(&self@[*key])
            } else {
                None
            }),
    {
        let row: usize = self.find(key);
        if row < self.rows.len() {
            Some(&self.rows[row].1)
        } else {
            None
        }
    }

    /// A copy of the table.
    pub fn copy(&self) -> (copied: Self) where V: TableValue
        ensures
            copied@ == self@,
            self.wf() ==> copied.wf(),
    {
        let n: usize = self.rows.len();
        let mut rows: Vec<(K, V)> = Vec::new();
        let mut row: usize = 0;
        while row < n
            invariant
                row <= n,
                n == self.rows@.len(),
                rows@ == self.rows@.take(row as int),
            decreases n - row,
        {
            rows.push((self.rows[row].0, self.rows[row].1.copy_value()));
            assert(self.rows@.take(row + 1) =~= self.rows@.take(row as int).push(
                self.rows@[row as int],
            ));
            row += 1;
        }
        assert(rows@ =~= self.rows@);
        Table { rows }
    }

    /// Overwrites every value, in place.
    pub fn fill(&mut self, value: &V) where V: TableValue
        requires
            old(self).wf(),
        ensures
            final(self).wf(),
            final(self)@.dom() == old(self)@.dom(),
            forall|key: K| #[trigger] final(self)@.dom().contains(key) ==> final(self)@[key]
                == *value,
    {
        let ghost before = self.rows@;
        let n: usize = self.rows.len();
        let mut row: usize = 0;
        while row < n
            invariant
                row <= n,
                n == self.rows@.len(),
                n == before.len(),
                forall|i: int| 0 <= i < n ==> (#[trigger] self.rows@[i]).0 == before[i].0,
                forall|i: int| 0 <= i < row ==> (#[trigger] self.rows@[i]).1 == *value,
            decreases n - row,
        {
            self.rows[row].1 = value.copy_value();
            row += 1;
        }
        proof {
            lemma_filled(before, self.rows@, *value);
        }
    }
}

proof fn lemma_filled<K, V>(before: Seq<(K, V)>, after: Seq<(K, V)>, value: V)
    requires
        distinct_keys(before),
        after.len() == before.len(),
        forall|i: int| 0 <= i < after.len() ==> (#[trigger] after[i]).0 == before[i].0,
        forall|i: int| 0 <= i < after.len() ==> (#[trigger] after[i]).1 == value,
    ensures
        distinct_keys(after),
        rows_as_map(after).dom() == rows_as_map(before).dom(),
        forall|key: K| #[trigger]
            rows_as_map(after).dom().contains(key) ==> rows_as_map(after)[key] == value,
{
    assert forall|i: int, j: int| 0 <= i < j < after.len() implies after[i].0 != after[j].0 by {
        assert(before[i].0 != before[j].0);
    }
    assert forall|key: K| #[trigger]
        rows_as_map(after).dom().contains(key) == rows_as_map(before).dom().contains(key) by {
        if rows_as_map(after).dom().contains(key) {
            let row = choose|r: int| row_of(after, key, r);
            assert(row_of(before, key, row));
        }
        if rows_as_map(before).dom().contains(key) {
            let row = choose|r: int| row_of(before, key, r);
            assert(after[row].0 == before[row].0);
            assert(row_of(after, key, row));
        }
    }
    assert(rows_as_map(after).dom() =~= rows_as_map(before).dom());
    assert forall|key: K| #[trigger] rows_as_map(after).dom().contains(key) implies rows_as_map(
        after,
    )[key] == value by {
        let row = choose|r: int| row_of(after, key, r);
        lemma_row(after, key, row);
    }
}

} // verus!
