//! Ordered table from numeric keys to values.

use std::collections::BTreeMap;

use vstd::prelude::*;

verus! {

/// One row of a table.
#[derive(Clone, Copy, Debug, Eq, PartialEq)]
pub struct Row<V> {
    /// Key of the row.
    pub key: u64,
    /// Its value.
    pub value: V,
}

/// Table from numeric keys to values, walked in ascending key order.
#[derive(Debug)]
pub struct Table<V> {
    map: BTreeMap<u64, V>,
}

/// The rows stand in strictly ascending key order.
pub open spec fn rows_ordered<V>(rows: Seq<Row<V>>) -> bool {
    forall|i: int, j: int| 0 <= i < j < rows.len() ==> rows[i].key < rows[j].key
}

/// `i` is the position of `key`.
pub open spec fn holds<V>(rows: Seq<Row<V>>, key: u64, i: int) -> bool {
    0 <= i < rows.len() && rows[i].key == key
}

/// What the rows map each key to.
pub open spec fn contents<V>(rows: Seq<Row<V>>) -> Map<u64, V> {
    Map::new(
        |key: u64| exists|i: int| holds(rows, key, i),
        |key: u64| rows[choose|i: int| holds(rows, key, i)].value,
    )
}

/// The rows of a map, in ascending key order.
pub closed spec fn rows_of<V>(map: Map<u64, V>) -> Seq<Row<V>> {
    choose|rows: Seq<Row<V>>| rows_ordered(rows) && #[trigger] contents(rows) == map
}

/// Number of rows below `key`: where its row belongs.
pub open spec fn rows_below<V>(rows: Seq<Row<V>>, key: u64) -> nat
    decreases rows.len(),
{
    if rows.len() == 0 {
        0
    } else if rows.last().key < key {
        rows.len()
    } else {
        rows_below(rows.drop_last(), key)
    }
}

/// The rows with one more, in order.
pub open spec fn with_row<V>(rows: Seq<Row<V>>, key: u64, value: V) -> Seq<Row<V>> {
    rows.insert(rows_below(rows, key) as int, Row { key, value })
}

/// Where a row belongs among ordered rows.
pub proof fn lemma_rows_below<V>(rows: Seq<Row<V>>, key: u64, i: int)
    requires
        rows_ordered(rows),
        0 <= i <= rows.len(),
        forall|k: int| 0 <= k < i ==> (#[trigger] rows[k]).key < key,
        forall|k: int| i <= k < rows.len() ==> (#[trigger] rows[k]).key >= key,
    ensures
        rows_below(rows, key) == i,
    decreases rows.len(),
{
    if rows.len() > 0 {
        if i == rows.len() {
            assert(rows[rows.len() - 1].key < key);
        } else {
            assert(rows[rows.len() - 1].key >= key);
            let rest = rows.drop_last();
            assert forall|k: int| 0 <= k < i implies (#[trigger] rest[k]).key < key by {
                assert(rest[k] == rows[k]);
            }
            assert forall|k: int| i <= k < rest.len() implies (#[trigger] rest[k]).key >= key by {
                assert(rest[k] == rows[k]);
            }
            lemma_rows_below(rest, key, i);
        }
    }
}

/// Ordered rows with the same contents are the same rows.
pub proof fn lemma_contents_determine_rows<V>(a: Seq<Row<V>>, b: Seq<Row<V>>)
    requires
        rows_ordered(a),
        rows_ordered(b),
        contents(a) == contents(b),
    ensures
        a == b,
    decreases a.len(),
{
    if a.len() > 0 && b.len() > 0 {
        let p = a.last();
        let q = b.last();
        lemma_row(a, a.len() - 1);
        lemma_row(b, b.len() - 1);
        let i = choose|i: int| holds(b, p.key, i);
        let j = choose|j: int| holds(a, q.key, j);
        assert(holds(b, p.key, i));
        assert(holds(a, q.key, j));
        if i < b.len() - 1 {
            assert(b[i].key < b[b.len() - 1].key);
        }
        if j < a.len() - 1 {
            assert(a[j].key < a[a.len() - 1].key);
        }
        assert(p.key == q.key);
        lemma_removed(a, a.len() - 1);
        lemma_removed(b, b.len() - 1);
        assert(a.remove(a.len() - 1) =~= a.drop_last());
        assert(b.remove(b.len() - 1) =~= b.drop_last());
        lemma_contents_determine_rows(a.drop_last(), b.drop_last());
        assert(a =~= a.drop_last().push(p));
        assert(b =~= b.drop_last().push(q));
    } else if a.len() > 0 {
        lemma_row(a, a.len() - 1);
        let i = choose|i: int| holds(b, a.last().key, i);
        assert(holds(b, a.last().key, i));
    } else if b.len() > 0 {
        lemma_row(b, b.len() - 1);
        let i = choose|i: int| holds(a, b.last().key, i);
        assert(holds(a, b.last().key, i));
    } else {
        assert(a =~= b);
    }
}

/// A row of ordered rows is what its key maps to.
pub proof fn lemma_row<V>(rows: Seq<Row<V>>, i: int)
    requires
        rows_ordered(rows),
        0 <= i < rows.len(),
    ensures
        contents(rows).contains_key(rows[i].key),
        contents(rows)[rows[i].key] == rows[i].value,
{
    let key = rows[i].key;
    assert(holds(rows, key, i));
    let j = choose|j: int| holds(rows, key, j);
    assert(holds(rows, key, j));
    if i < j {
        assert(rows[i].key < rows[j].key);
    } else if j < i {
        assert(rows[j].key < rows[i].key);
    }
}

/// Ordered rows are the rows of what they map.
proof fn lemma_are_rows<V>(rows: Seq<Row<V>>)
    requires
        rows_ordered(rows),
    ensures
        rows_of(contents(rows)) == rows,
{
    lemma_contents_determine_rows(rows, rows_of(contents(rows)));
}

/// The rows below a key come first, and without a row of its own all others are above it.
proof fn lemma_place<V>(rows: Seq<Row<V>>, key: u64)
    requires
        rows_ordered(rows),
        !contents(rows).contains_key(key),
    ensures
        rows_below(rows, key) <= rows.len(),
        forall|k: int| 0 <= k < rows_below(rows, key) ==> (#[trigger] rows[k]).key < key,
        forall|k: int| rows_below(rows, key) <= k < rows.len() ==> (#[trigger] rows[k]).key > key,
    decreases rows.len(),
{
    if rows.len() > 0 {
        let n = rows.len() - 1;
        lemma_row(rows, n);
        if rows.last().key < key {
            assert forall|k: int| 0 <= k < rows.len() implies (#[trigger] rows[k]).key < key by {
                if k < n {
                    assert(rows[k].key < rows[n].key);
                }
            }
        } else {
            let rest = rows.drop_last();
            lemma_removed(rows, n);
            assert(rows.remove(n) =~= rest);
            lemma_place(rest, key);
            assert forall|k: int| 0 <= k < rows_below(rows, key) implies (#[trigger] rows[k]).key
                < key by {
                assert(rest[k] == rows[k]);
            }
            assert forall|k: int| rows_below(rows, key) <= k < rows.len() implies (
            #[trigger] rows[k]).key > key by {
                if k < n {
                    assert(rest[k] == rows[k]);
                }
            }
        }
    }
}

/// A finite map has rows: ordered, and mapping what it maps.
proof fn lemma_has_rows<V>(map: Map<u64, V>)
    requires
        map.dom().finite(),
    ensures
        rows_ordered(rows_of(map)),
        contents(rows_of(map)) == map,
    decreases map.dom().len(),
{
    if map.dom().is_empty() {
        let none = Seq::<Row<V>>::empty();
        assert forall|key: u64| !contents(none).contains_key(key) by {
            if contents(none).contains_key(key) {
                let i = choose|i: int| holds(none, key, i);
                assert(holds(none, key, i));
            }
        }
        assert(contents(none) =~= map);
        lemma_are_rows(none);
    } else {
        let key = map.dom().choose();
        let rest = map.remove(key);
        assert(rest.dom() =~= map.dom().remove(key));
        lemma_has_rows(rest);
        let before = rows_of(rest);
        lemma_place(before, key);
        lemma_inserted(before, rows_below(before, key) as int, key, map[key]);
        assert(rest.insert(key, map[key]) =~= map);
        lemma_are_rows(with_row(before, key, map[key]));
    }
}

impl<V> Table<V> {
    /// The rows, in ascending key order.
    pub closed spec fn all(self) -> Seq<Row<V>> {
        rows_of(self.map@)
    }

    /// The contents.
    pub open spec fn view(self) -> Map<u64, V> {
        contents(self.all())
    }

    /// Number of rows.
    pub open spec fn count(self) -> nat {
        self.all().len()
    }

    /// Key of the row at `i`, in ascending order.
    pub open spec fn key(self, i: int) -> u64 {
        self.all()[i].key
    }

    /// Every key has one row, in order.
    pub open spec fn wf(self) -> bool {
        rows_ordered(self.all())
    }

    /// The contents are those of the map.
    proof fn lemma_map(self)
        ensures
            self.wf(),
            self@ == self.map@,
    {
        lemma_has_rows(self.map@);
    }

    /// Creates an empty table.
    pub fn new() -> (r: Self)
        ensures
            r.wf(),
            r@ == Map::<u64, V>::empty(),
            r.all() == Seq::<Row<V>>::empty(),
            r.count() == 0,
    {
        let table = Self { map: BTreeMap::new() };
        proof {
            table.lemma_map();
            if table.count() > 0 {
                lemma_row(table.all(), 0);
            }
        }
        table
    }

    /// The rows are the contents, each key once and in order.
    pub proof fn lemma_rows(self)
        requires
            self.wf(),
        ensures
            forall|i: int, j: int|
                0 <= i < j < self.count() ==> #[trigger] self.key(i) < #[trigger] self.key(j),
            forall|i: int| 0 <= i < self.count() ==> self@.contains_key(#[trigger] self.key(i)),
            forall|key: u64| #[trigger]
                self@.contains_key(key) ==> exists|i: int|
                    0 <= i < self.count() && self.key(i) == key,
    {
        assert forall|i: int| 0 <= i < self.count() implies self@.contains_key(
            #[trigger] self.key(i),
        ) by {
            lemma_row(self.all(), i);
        }
        assert forall|key: u64| #[trigger] self@.contains_key(key) implies exists|i: int|
            0 <= i < self.count() && self.key(i) == key by {
            let i = choose|i: int| holds(self.all(), key, i);
            assert(holds(self.all(), key, i));
            assert(self.key(i) == key);
        }
    }

    /// Returns a reference to the value of a key.
    pub fn peek(&self, key: u64) -> (r: Option<&V>)
        requires
            self.wf(),
        ensures
            match r {
                Some(value) => self@.contains_key(key) && *value == self@[key],
                None => !self@.contains_key(key),
            },
    {
        proof {
            self.lemma_map();
        }
        self.map.get(&key)
    }

    /// Sets the value of a key.
    pub fn insert(&mut self, key: u64, value: V)
        requires
            old(self).wf(),
        ensures
            final(self).wf(),
            final(self)@ == old(self)@.insert(key, value),
            !old(self)@.contains_key(key) ==> final(self).all() == with_row(
                old(self).all(),
                key,
                value,
            ),
            final(self).count() == old(self).count() + if old(self)@.contains_key(key) {
                0nat
            } else {
                1nat
            },
    {
        let ghost before = self.all();
        proof {
            self.lemma_map();
        }
        let _ = self.map.insert(key, value);
        proof {
            self.lemma_map();
            if contents(before).contains_key(key) {
                let i = choose|i: int| holds(before, key, i);
                assert(holds(before, key, i));
                let after = before.update(i, Row { key, value });
                assert forall|a: int, b: int| 0 <= a < b < after.len() implies after[a].key
                    < after[b].key by {
                    assert(before[a].key < before[b].key);
                }
                lemma_same_keys(before, after, key, i);
                lemma_are_rows(after);
            } else {
                lemma_place(before, key);
                lemma_inserted(before, rows_below(before, key) as int, key, value);
                lemma_are_rows(with_row(before, key, value));
            }
        }
    }

    /// Removes a key and returns the value it had.
    pub fn remove(&mut self, key: u64) -> (r: Option<V>)
        requires
            old(self).wf(),
        ensures
            final(self).wf(),
            final(self)@ == old(self)@.remove(key),
            r == if old(self)@.contains_key(key) {
                Some(old(self)@[key])
            } else {
                None
            },
            forall|i: int|
                #![trigger old(self).all()[i]]
                holds(old(self).all(), key, i) ==> final(self).all() == old(self).all().remove(i),
            final(self).count() + if old(self)@.contains_key(key) {
                1nat
            } else {
                0nat
            } == old(self).count(),
    {
        let ghost before = self.all();
        proof {
            self.lemma_map();
        }
        let r = self.map.remove(&key);
        proof {
            self.lemma_map();
            if contents(before).contains_key(key) {
                let i = choose|i: int| holds(before, key, i);
                assert(holds(before, key, i));
                lemma_removed(before, i);
                lemma_are_rows(before.remove(i));
                assert forall|j: int| holds(before, key, j) implies j == i by {
                    if j < i {
                        assert(before[j].key < before[i].key);
                    } else if i < j {
                        assert(before[i].key < before[j].key);
                    }
                }
            } else {
                assert(contents(before).remove(key) =~= contents(before));
                lemma_are_rows(before);
                assert forall|j: int| !holds(before, key, j) by {
                    if holds(before, key, j) {
                        lemma_row(before, j);
                    }
                }
            }
        }
        r
    }

    /// Returns the number of rows.
    pub fn len(&self) -> (r: usize)
        ensures
            r == self.count(),
    {
        proof {
            self.lemma_map();
            lemma_key_count(*self);
        }
        self.map.len()
    }

    /// Returns the row at a position, in ascending key order, with a reference to its value.
    pub fn row_ref(&self, i: usize) -> (r: Row<&V>)
        requires
            self.wf(),
            i < self.count(),
        ensures
            r.key == self.key(i as int),
            *r.value == self.all()[i as int].value,
            self@.contains_key(r.key),
            *r.value == self@[r.key],
    {
        let walk = self.map.iter();
        let ghost rows = self.all();
        proof {
            self.lemma_walk(vstd::std_specs::iter::IteratorSpec::remaining(&walk));
            lemma_row(rows, i as int);
        }
        let mut left: usize = i;
        let mut found: Option<Row<&V>> = None;
        for entry in it: walk
            invariant
                it.seq().len() == rows.len(),
                i < rows.len(),
                forall|j: int|
                    0 <= j < rows.len() ==> *(#[trigger] it.seq()[j]).0 == rows[j].key
                        && *it.seq()[j].1 == rows[j].value,
                it.index() <= i ==> found is None && left == i - it.index(),
                i < it.index() ==> found is Some && found->0.key == rows[i as int].key
                    && *found->0.value == rows[i as int].value,
        {
            if found.is_none() {
                if left == 0 {
                    found = Some(Row { key: *entry.0, value: entry.1 });
                } else {
                    left = left - 1;
                }
            }
        }
        found.unwrap()
    }

    /// A walk over the map goes through the rows.
    proof fn lemma_walk(self, walk: Seq<(&u64, &V)>)
        requires
            walk.len() == self.map@.dom().len(),
            forall|j: int|
                0 <= j < walk.len() ==> self.map@.contains_key(*(#[trigger] walk[j]).0)
                    && self.map@[*walk[j].0] == *walk[j].1,
            forall|key: u64| #[trigger]
                self.map@.contains_key(key) ==> walk.contains((&key, &self.map@[key])),
            vstd::std_specs::btree::increasing_seq(
                walk.map_values(|entry: (&u64, &V)| *entry.0),
            ),
        ensures
            self.count() == walk.len(),
            forall|j: int|
                0 <= j < walk.len() ==> *(#[trigger] walk[j]).0 == self.all()[j].key && *walk[j].1
                    == self.all()[j].value,
    {
        let rows = Seq::new(
            walk.len(),
            |j: int| Row { key: *walk[j].0, value: *walk[j].1 },
        );
        assert forall|i: int, j: int| 0 <= i < j < rows.len() implies rows[i].key < rows[j].key by {
            let keys = walk.map_values(|entry: (&u64, &V)| *entry.0);
            assert(vstd::std_specs::cmp::OrdSpec::cmp_spec(&keys[i], &keys[j]) is Less);
        }
        assert forall|key: u64| #[trigger] contents(rows).contains_key(key)
            == self.map@.contains_key(key) by {
            if contents(rows).contains_key(key) {
                let j = choose|j: int| holds(rows, key, j);
                assert(holds(rows, key, j));
                assert(self.map@.contains_key(*walk[j].0));
            }
            if self.map@.contains_key(key) {
                let j = choose|j: int| 0 <= j < walk.len() && walk[j] == (&key, &self.map@[key]);
                assert(holds(rows, key, j));
            }
        }
        assert forall|key: u64| contents(rows).contains_key(key) implies #[trigger] contents(
            rows,
        )[key] == self.map@[key] by {
            let j = choose|j: int| holds(rows, key, j);
            assert(holds(rows, key, j));
            lemma_row(rows, j);
            assert(self.map@[*walk[j].0] == *walk[j].1);
        }
        assert(contents(rows) =~= self.map@);
        lemma_are_rows(rows);
    }
}

impl<V: Copy> Table<V> {
    /// Returns the value of a key.
    pub fn get(&self, key: u64) -> (r: Option<V>)
        requires
            self.wf(),
        ensures
            r == if self@.contains_key(key) {
                Some(self@[key])
            } else {
                None
            },
    {
        match self.peek(key) {
            Some(value) => Some(*value),
            None => None,
        }
    }

    /// Returns a table with the same rows.
    pub fn duplicate(&self) -> (r: Self)
        ensures
            r.all() == self.all(),
            r@ == self@,
            r.wf() == self.wf(),
            r.count() == self.count(),
    {
        Self { map: self.map.clone() }
    }

    /// Returns the row at a position, in ascending key order.
    pub fn row(&self, i: usize) -> (r: (u64, V))
        requires
            self.wf(),
            i < self.count(),
        ensures
            r.0 == self.key(i as int),
            r.0 == self.all()[i as int].key,
            r.1 == self.all()[i as int].value,
            self@.contains_key(r.0),
            r.1 == self@[r.0],
    {
        let row = self.row_ref(i);
        (row.key, *row.value)
    }
}

impl<V: Copy> Table<V> {
    /// Removes every key between `low` and `high`, both included.
    pub fn remove_range(&mut self, low: u64, high: u64)
        requires
            old(self).wf(),
        ensures
            final(self).wf(),
            final(self)@ == old(self)@.restrict(
                Set::new(|key: u64| !(low <= key && key <= high)),
            ),
    {
        let ghost before = self@;
        let mut i: usize = 0;
        while i < self.len()
            invariant
                i <= self.count(),
                self.wf(),
                forall|key: u64| #[trigger]
                    self@.contains_key(key) ==> before.contains_key(key) && self@[key]
                        == before[key],
                forall|key: u64|
                    before.contains_key(key) && !(low <= key && key <= high)
                        ==> #[trigger] self@.contains_key(key),
                forall|k: int|
                    0 <= k < i ==> !(low <= (#[trigger] self.all()[k]).key && self.all()[k].key
                        <= high),
            decreases self.count() - i,
        {
            let key: u64 = self.row(i).0;
            if low <= key && key <= high {
                let ghost now = self@;
                let ghost gone = self.all()[i as int].key;
                assert(holds(self.all(), key, i as int));
                let _ = self.remove(key);
                proof {
                    assert(self@ == now.remove(gone));
                    assert forall|key: u64| #[trigger] self@.contains_key(
                        key,
                    ) implies before.contains_key(key) && self@[key] == before[key] by {
                        assert(now.contains_key(key));
                    }
                    assert forall|key: u64|
                        before.contains_key(key) && !(low <= key && key
                            <= high) implies #[trigger] self@.contains_key(key) by {
                        assert(now.contains_key(key));
                    }
                }
            } else {
                i = i + 1;
            }
        }
        proof {
            self.lemma_rows();
            let goal = before.restrict(Set::new(|key: u64| !(low <= key && key <= high)));
            assert forall|key: u64| #[trigger] self@.contains_key(key) == goal.contains_key(
                key,
            ) by {
                if self@.contains_key(key) {
                    let k = choose|k: int| 0 <= k < self.count() && self.key(k) == key;
                    assert(self.all()[k].key == key);
                }
            }
            assert(self@ =~= goal);
        }
    }
}

impl Table<u64> {
    /// Removes every key that maps to `value`.
    pub fn remove_value(&mut self, value: u64)
        requires
            old(self).wf(),
        ensures
            final(self).wf(),
            final(self)@ == old(self)@.restrict(Set::new(|key: u64| old(self)@[key] != value)),
    {
        let ghost before = self@;
        let mut i: usize = 0;
        while i < self.len()
            invariant
                i <= self.count(),
                self.wf(),
                forall|key: u64| #[trigger]
                    self@.contains_key(key) ==> before.contains_key(key) && self@[key]
                        == before[key],
                forall|key: u64|
                    before.contains_key(key) && before[key] != value
                        ==> #[trigger] self@.contains_key(key),
                forall|k: int| 0 <= k < i ==> (#[trigger] self.all()[k]).value != value,
            decreases self.count() - i,
        {
            proof {
                lemma_row(self.all(), i as int);
            }
            let (key, held) = self.row(i);
            if held == value {
                let ghost now = self@;
                let ghost gone = self.all()[i as int].key;
                assert(holds(self.all(), key, i as int));
                let _ = self.remove(key);
                proof {
                    assert(self@ == now.remove(gone));
                    assert forall|key: u64| #[trigger] self@.contains_key(
                        key,
                    ) implies before.contains_key(key) && self@[key] == before[key] by {
                        assert(now.contains_key(key));
                    }
                    assert forall|key: u64|
                        before.contains_key(key) && before[key]
                            != value implies #[trigger] self@.contains_key(key) by {
                        assert(now.contains_key(key));
                    }
                }
            } else {
                i = i + 1;
            }
        }
        proof {
            self.lemma_rows();
            let goal = before.restrict(Set::new(|key: u64| before[key] != value));
            assert forall|key: u64| #[trigger] self@.contains_key(key) == goal.contains_key(
                key,
            ) by {
                if self@.contains_key(key) {
                    let k = choose|k: int| 0 <= k < self.count() && self.key(k) == key;
                    lemma_row(self.all(), k);
                }
            }
            assert(self@ =~= goal);
        }
    }
}

/// Replacing the value of one row sets that key.
proof fn lemma_same_keys<V>(before: Seq<Row<V>>, after: Seq<Row<V>>, key: u64, i: int)
    requires
        rows_ordered(before),
        rows_ordered(after),
        0 <= i < before.len(),
        before[i].key == key,
        after == before.update(i, after[i]),
        after[i].key == key,
    ensures
        contents(after) == contents(before).insert(key, after[i].value),
{
    let goal = contents(before).insert(key, after[i].value);
    assert forall|k: u64| #[trigger] contents(after).contains_key(k) == goal.contains_key(k) by {
        if contents(after).contains_key(k) {
            let a = choose|a: int| holds(after, k, a);
            assert(holds(after, k, a));
            assert(holds(before, k, a));
        }
        if contents(before).contains_key(k) {
            let a = choose|a: int| holds(before, k, a);
            assert(holds(before, k, a));
            assert(holds(after, k, a));
        }
        assert(holds(after, key, i));
    }
    assert forall|k: u64| contents(after).contains_key(k) implies #[trigger] contents(after)[k]
        == goal[k] by {
        let a = choose|a: int| holds(after, k, a);
        assert(holds(after, k, a));
        lemma_row(after, a);
        lemma_row(before, a);
        lemma_row(after, i);
        if k == key {
            if a != i {
                if a < i {
                    assert(after[a].key < after[i].key);
                } else {
                    assert(after[i].key < after[a].key);
                }
            }
        }
    }
    assert(contents(after) =~= goal);
}

/// Inserting a row where it belongs sets that key.
proof fn lemma_inserted<V>(before: Seq<Row<V>>, i: int, key: u64, value: V)
    requires
        rows_ordered(before),
        0 <= i <= before.len(),
        forall|k: int| 0 <= k < i ==> (#[trigger] before[k]).key < key,
        forall|k: int| i <= k < before.len() ==> (#[trigger] before[k]).key > key,
    ensures
        rows_ordered(before.insert(i, Row { key, value })),
        contents(before.insert(i, Row { key, value })) == contents(before).insert(key, value),
{
    let after = before.insert(i, Row { key, value });
    let goal = contents(before).insert(key, value);
    assert forall|a: int, b: int| 0 <= a < b < after.len() implies after[a].key < after[b].key by {
        let c = if a > i {
            a - 1
        } else {
            a
        };
        let d = if b > i {
            b - 1
        } else {
            b
        };
        if a != i && b != i {
            assert(before[c].key < before[d].key);
        } else if a == i {
            assert(before[d].key > key);
        } else {
            assert(before[c].key < key);
        }
    }
    assert forall|k: u64| #[trigger] contents(after).contains_key(k) == goal.contains_key(k) by {
        if contents(after).contains_key(k) && k != key {
            let a = choose|a: int| holds(after, k, a);
            assert(holds(after, k, a));
            assert(holds(before, k, if a > i { a - 1 } else { a }));
        }
        if contents(before).contains_key(k) {
            let a = choose|a: int| holds(before, k, a);
            assert(holds(before, k, a));
            assert(holds(after, k, if a >= i { a + 1 } else { a }));
        }
        assert(holds(after, key, i));
    }
    assert forall|k: u64| contents(after).contains_key(k) implies #[trigger] contents(after)[k]
        == goal[k] by {
        let a = choose|a: int| holds(after, k, a);
        assert(holds(after, k, a));
        lemma_row(after, a);
        if a < i {
            lemma_row(before, a);
            assert(before[a].key < key);
        } else if a > i {
            lemma_row(before, a - 1);
            assert(before[a - 1].key > key);
        }
    }
    assert(contents(after) =~= goal);
}

/// Removing a row removes its key.
proof fn lemma_removed<V>(before: Seq<Row<V>>, i: int)
    requires
        rows_ordered(before),
        0 <= i < before.len(),
    ensures
        rows_ordered(before.remove(i)),
        contents(before.remove(i)) == contents(before).remove(before[i].key),
{
    let after = before.remove(i);
    let key = before[i].key;
    let goal = contents(before).remove(key);
    assert forall|a: int, b: int| 0 <= a < b < after.len() implies after[a].key < after[b].key by {
        let c = if a >= i {
            a + 1
        } else {
            a
        };
        let d = if b >= i {
            b + 1
        } else {
            b
        };
        assert(before[c].key < before[d].key);
    }
    assert forall|k: u64| #[trigger] contents(after).contains_key(k) == goal.contains_key(k) by {
        if contents(after).contains_key(k) {
            let a = choose|a: int| holds(after, k, a);
            assert(holds(after, k, a));
            let c = if a >= i {
                a + 1
            } else {
                a
            };
            assert(holds(before, k, c));
            if c < i {
                assert(before[c].key < before[i].key);
            } else {
                assert(before[i].key < before[c].key);
            }
        }
        if contents(before).contains_key(k) && k != key {
            let a = choose|a: int| holds(before, k, a);
            assert(holds(before, k, a));
            assert(holds(after, k, if a > i { a - 1 } else { a }));
        }
    }
    assert forall|k: u64| contents(after).contains_key(k) implies #[trigger] contents(after)[k]
        == goal[k] by {
        let a = choose|a: int| holds(after, k, a);
        assert(holds(after, k, a));
        lemma_row(after, a);
        lemma_row(before, if a >= i { a + 1 } else { a });
    }
    assert(contents(after) =~= goal);
}

/// Cardinality of the keys of a table.
pub proof fn lemma_key_count<V>(table: Table<V>)
    requires
        table.wf(),
    ensures
        table@.dom().finite(),
        table@.dom().len() == table.count(),
{
    lemma_prefix_count(table, table.count());
    table.lemma_rows();
    assert(table@.dom() =~= prefix_keys(table, table.count()));
}

/// Keys of the first rows of a table.
spec fn prefix_keys<V>(table: Table<V>, n: nat) -> Set<u64> {
    Set::new(|key: u64| exists|i: int| 0 <= i < n && #[trigger] table.key(i) == key)
}

proof fn lemma_prefix_count<V>(table: Table<V>, n: nat)
    requires
        table.wf(),
        n <= table.count(),
    ensures
        prefix_keys(table, n).finite(),
        prefix_keys(table, n).len() == n,
    decreases n,
{
    if n == 0 {
        assert(prefix_keys(table, n) =~= Set::<u64>::empty());
    } else {
        lemma_prefix_count(table, (n - 1) as nat);
        let last = table.key(n - 1);
        let before = prefix_keys(table, (n - 1) as nat);
        table.lemma_rows();
        assert(!before.contains(last));
        assert(prefix_keys(table, n) =~= before.insert(last));
    }
}

} // verus!
