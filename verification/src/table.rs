//! A table of rows, each found by its key.
use crate::data::Data;
use vstd::prelude::*;

verus! {

/// Whether no two rows have the same key.
pub open spec fn distinct_keys<A, B>(rows: Seq<(A, B)>) -> bool {
    forall|i: int, j: int| 0 <= i < j < rows.len() ==> rows[i].0 != rows[j].0
}

/// Whether a row has the key.
pub open spec fn has_key<A, B>(rows: Seq<(A, B)>, key: A) -> bool {
    exists|i: int| 0 <= i < rows.len() && #[trigger] rows[i].0 == key
}

/// Where the row with the key stands.
pub open spec fn place_of<A, B>(rows: Seq<(A, B)>, key: A) -> int {
    choose|i: int| 0 <= i < rows.len() && #[trigger] rows[i].0 == key
}

/// The map that the rows spell out.
pub open spec fn rows_map<A, B>(rows: Seq<(A, B)>) -> Map<A, B> {
    Map::new(|key: A| has_key(rows, key), |key: A| rows[place_of(rows, key)].1)
}

/// The keys of the rows, in order.
pub open spec fn row_keys<A, B>(rows: Seq<(A, B)>) -> Seq<A> {
    rows.map_values(|row: (A, B)| row.0)
}

/// A map spelled out by rows with distinct keys holds each of them, and nothing else.
pub proof fn lemma_rows_map<A, B>(rows: Seq<(A, B)>)
    requires
        distinct_keys(rows),
    ensures
        forall|i: int|
            0 <= i < rows.len() ==> {
                &&& rows_map(rows).contains_key((#[trigger] rows[i]).0)
                &&& rows_map(rows)[rows[i].0] == rows[i].1
            },
        forall|key: A| #[trigger]
            rows_map(rows).contains_key(key) ==> {
                &&& 0 <= place_of(rows, key) < rows.len()
                &&& rows[place_of(rows, key)] == (key, rows_map(rows)[key])
            },
        rows_map(rows).dom().finite(),
        rows_map(rows).dom().len() == rows.len(),
        row_keys(rows).no_duplicates(),
        row_keys(rows).to_set() == rows_map(rows).dom(),
    decreases rows.len(),
{
    assert forall|i: int| 0 <= i < rows.len() implies {
        &&& rows_map(rows).contains_key((#[trigger] rows[i]).0)
        &&& rows_map(rows)[rows[i].0] == rows[i].1
    } by {
        assert(has_key(rows, rows[i].0));
        let p = place_of(rows, rows[i].0);
        assert(p == i);
    }
    assert forall|key: A| #[trigger] rows_map(rows).contains_key(key) implies {
        &&& 0 <= place_of(rows, key) < rows.len()
        &&& rows[place_of(rows, key)] == (key, rows_map(rows)[key])
    } by {
        assert(has_key(rows, key));
    }
    let keys = row_keys(rows);
    assert(keys.no_duplicates());
    assert forall|key: A| keys.to_set().contains(key) <==> #[trigger] rows_map(
        rows,
    ).dom().contains(key) by {
        if keys.to_set().contains(key) {
            assert(keys.contains(key));
            let i = choose|i: int| 0 <= i < keys.len() && keys[i] == key;
            assert(rows[i].0 == key);
        }
        if rows_map(rows).dom().contains(key) {
            let i = place_of(rows, key);
            assert(rows_map(rows).contains_key(key));
            assert(keys[i] == key);
        }
    }
    assert(keys.to_set() =~= rows_map(rows).dom());
    keys.unique_seq_to_set();
    vstd::seq_lib::seq_to_set_is_finite(keys);
}

/// A row with a new key at the end adds that key to the map.
pub proof fn lemma_rows_push<A, B>(rows: Seq<(A, B)>, key: A, value: B)
    requires
        distinct_keys(rows),
        !rows_map(rows).contains_key(key),
    ensures
        distinct_keys(rows.push((key, value))),
        rows_map(rows.push((key, value))) == rows_map(rows).insert(key, value),
{
    let more = rows.push((key, value));
    lemma_rows_map(rows);
    assert forall|i: int, j: int| 0 <= i < j < more.len() implies more[i].0 != more[j].0 by {
        assert(more[i] == rows[i]);
        assert(has_key(rows, rows[i].0));
    }
    lemma_rows_map(more);
    assert forall|k: A| rows_map(more).contains_key(k) <==> #[trigger] rows_map(rows).insert(
        key,
        value,
    ).contains_key(k) by {
        if rows_map(more).contains_key(k) {
            let i = place_of(more, k);
            if i < rows.len() {
                assert(rows[i].0 == k);
            }
        }
        if rows_map(rows).insert(key, value).contains_key(k) {
            if k == key {
                assert(more[rows.len() as int].0 == k);
            } else {
                let i = place_of(rows, k);
                assert(more[i] == rows[i]);
            }
        }
    }
    assert forall|k: A| #[trigger] rows_map(more).contains_key(k) implies rows_map(more)[k]
        == rows_map(rows).insert(key, value)[k] by {
        let i = place_of(more, k);
        if i < rows.len() {
            assert(more[i] == rows[i]);
        }
    }
    assert(rows_map(more) =~= rows_map(rows).insert(key, value));
}

/// A changed value changes the map at that key alone.
pub proof fn lemma_rows_update<A, B>(rows: Seq<(A, B)>, i: int, value: B)
    requires
        distinct_keys(rows),
        0 <= i < rows.len(),
    ensures
        distinct_keys(rows.update(i, (rows[i].0, value))),
        rows_map(rows.update(i, (rows[i].0, value))) == rows_map(rows).insert(rows[i].0, value),
{
    let key = rows[i].0;
    let more = rows.update(i, (key, value));
    lemma_rows_map(rows);
    assert(distinct_keys(more));
    lemma_rows_map(more);
    assert forall|k: A| rows_map(more).contains_key(k) <==> #[trigger] rows_map(rows).insert(
        key,
        value,
    ).contains_key(k) by {
        if rows_map(more).contains_key(k) {
            let j = place_of(more, k);
            assert(rows[j].0 == k);
        }
        if rows_map(rows).insert(key, value).contains_key(k) {
            if k == key {
                assert(more[i].0 == k);
            } else {
                let j = place_of(rows, k);
                assert(more[j] == rows[j]);
            }
        }
    }
    assert forall|k: A| #[trigger] rows_map(more).contains_key(k) implies rows_map(more)[k]
        == rows_map(rows).insert(key, value)[k] by {
        let j = place_of(more, k);
        if j != i {
            assert(more[j] == rows[j]);
        }
    }
    assert(rows_map(more) =~= rows_map(rows).insert(key, value));
}

/// A row taken out takes its key out of the map.
pub proof fn lemma_rows_remove<A, B>(rows: Seq<(A, B)>, i: int)
    requires
        distinct_keys(rows),
        0 <= i < rows.len(),
    ensures
        distinct_keys(rows.remove(i)),
        rows_map(rows.remove(i)) == rows_map(rows).remove(rows[i].0),
{
    let key = rows[i].0;
    let less = rows.remove(i);
    lemma_rows_map(rows);
    assert forall|a: int, b: int| 0 <= a < b < less.len() implies less[a].0 != less[b].0 by {
        let x = if a < i { a } else { a + 1 };
        let y = if b < i { b } else { b + 1 };
        assert(less[a] == rows[x]);
        assert(less[b] == rows[y]);
    }
    lemma_rows_map(less);
    assert forall|k: A| rows_map(less).contains_key(k) <==> #[trigger] rows_map(rows).remove(
        key,
    ).contains_key(k) by {
        if rows_map(less).contains_key(k) {
            let j = place_of(less, k);
            let x = if j < i { j } else { j + 1 };
            assert(rows[x].0 == k);
        }
        if rows_map(rows).remove(key).contains_key(k) {
            let j = place_of(rows, k);
            let x = if j < i { j } else { j - 1 };
            assert(less[x] == rows[j]);
        }
    }
    assert forall|k: A| #[trigger] rows_map(less).contains_key(k) implies rows_map(less)[k]
        == rows_map(rows).remove(key)[k] by {
        let j = place_of(less, k);
        let x = if j < i { j } else { j + 1 };
        assert(rows[x] == less[j]);
    }
    assert(rows_map(less) =~= rows_map(rows).remove(key));
}

/// A row replaced by the last one takes its key out of the map.
pub proof fn lemma_rows_swap_remove<A, B>(rows: Seq<(A, B)>, i: int)
    requires
        distinct_keys(rows),
        0 <= i < rows.len(),
    ensures
        distinct_keys(rows.update(i, rows.last()).drop_last()),
        rows_map(rows.update(i, rows.last()).drop_last()) == rows_map(rows).remove(rows[i].0),
{
    let key = rows[i].0;
    let less = rows.update(i, rows.last()).drop_last();
    let end = rows.len() - 1;
    lemma_rows_map(rows);
    assert forall|a: int, b: int| 0 <= a < b < less.len() implies less[a].0 != less[b].0 by {
        assert(less[a] == if a == i { rows[end] } else { rows[a] });
        assert(less[b] == if b == i { rows[end] } else { rows[b] });
    }
    lemma_rows_map(less);
    assert forall|k: A| rows_map(less).contains_key(k) <==> #[trigger] rows_map(rows).remove(
        key,
    ).contains_key(k) by {
        if rows_map(less).contains_key(k) {
            let j = place_of(less, k);
            let x = if j == i { end } else { j };
            assert(rows[x].0 == k);
        }
        if rows_map(rows).remove(key).contains_key(k) {
            let j = place_of(rows, k);
            let x = if j == end { i } else { j };
            assert(less[x] == rows[j]);
        }
    }
    assert forall|k: A| #[trigger] rows_map(less).contains_key(k) implies rows_map(less)[k]
        == rows_map(rows).remove(key)[k] by {
        let j = place_of(less, k);
        let x = if j == i { end } else { j };
        assert(rows[x] == less[j]);
    }
    assert(rows_map(less) =~= rows_map(rows).remove(key));
}

/// The keys whose values are selected.
pub open spec fn keys_where<A, B>(map: Map<A, B>, select: spec_fn(B) -> bool) -> Set<A> {
    Set::new(|key: A| map.contains_key(key) && select(map[key]))
}

/// How many of the rows have a value that is selected.
pub open spec fn rows_where<A, B>(rows: Seq<(A, B)>, select: spec_fn(B) -> bool) -> nat
    decreases rows.len(),
{
    if rows.len() == 0 {
        0
    } else {
        rows_where(rows.drop_last(), select) + (if select(rows.last().1) {
            1nat
        } else {
            0nat
        })
    }
}

/// As many rows as keys have a value that is selected.
pub proof fn lemma_rows_where<A, B>(rows: Seq<(A, B)>, select: spec_fn(B) -> bool)
    requires
        distinct_keys(rows),
    ensures
        keys_where(rows_map(rows), select).finite(),
        keys_where(rows_map(rows), select).len() == rows_where(rows, select),
        rows_where(rows, select) <= rows.len(),
    decreases rows.len(),
{
    let keys = keys_where(rows_map(rows), select);
    if rows.len() == 0 {
        assert(keys =~= Set::empty());
    } else {
        let less = rows.drop_last();
        let (key, value) = rows.last();
        assert(distinct_keys(less));
        lemma_rows_where(less, select);
        assert(!rows_map(less).contains_key(key)) by {
            if has_key(less, key) {
                let j = place_of(less, key);
                assert(less[j] == rows[j]);
            }
        }
        lemma_rows_push(less, key, value);
        assert(less.push((key, value)) =~= rows);
        if select(value) {
            assert(keys =~= keys_where(rows_map(less), select).insert(key));
        } else {
            assert(keys =~= keys_where(rows_map(less), select));
        }
    }
}

/// Rows with distinct keys, in the order in which the keys came.
pub struct Table<K: DeepView, V: DeepView> {
    entries: Vec<(K, V)>,
}

impl<K: DeepView, V: DeepView> Table<K, V> {
    /// The rows in order.
    pub closed spec fn rows(&self) -> Seq<(K::V, V::V)> {
        self.entries.deep_view()
    }

    #[verifier::type_invariant]
    closed spec fn keys_are_distinct(&self) -> bool {
        distinct_keys(self.entries.deep_view())
    }
}

impl<K: DeepView, V: DeepView> DeepView for Table<K, V> {
    type V = Map<K::V, V::V>;

    open spec fn deep_view(&self) -> Map<K::V, V::V> {
        rows_map(self.rows())
    }
}

impl<K: Data, V: DeepView> Table<K, V> {
    /// A table without rows.
    pub fn new() -> (r: Self)
        ensures
            r.rows() == Seq::<(K::V, V::V)>::empty(),
            r.deep_view() == Map::<K::V, V::V>::empty(),
    {
        let r = Table { entries: Vec::new() };
        assert(r.rows() =~= Seq::empty());
        assert(r.deep_view() =~= Map::empty());
        r
    }

    /// The number of rows.
    pub fn len(&self) -> (r: usize)
        ensures
            r == self.rows().len(),
            r == self.deep_view().dom().len(),
            self.deep_view().dom().finite(),
            distinct_keys(self.rows()),
    {
        proof {
            use_type_invariant(self);
            lemma_rows_map(self.rows());
        }
        self.entries.len()
    }

    /// Whether there is no row.
    pub fn is_empty(&self) -> (r: bool)
        ensures
            r == (self.deep_view() == Map::<K::V, V::V>::empty()),
            r == (self.rows().len() == 0),
    {
        let n: usize = self.len();
        proof {
            if n == 0 {
                assert(self.deep_view() =~= Map::empty());
            } else {
                lemma_rows_map(self.rows());
                assert(self.deep_view().contains_key(self.rows()[0].0));
            }
        }
        n == 0
    }

    /// The key of the row at a place.
    pub fn key_at(&self, i: usize) -> (r: &K)
        requires
            i < self.rows().len(),
        ensures
            r.deep_view() == self.rows()[i as int].0,
    {
        &self.entries[i].0
    }

    /// The value of the row at a place.
    pub fn value_at(&self, i: usize) -> (r: &V)
        requires
            i < self.rows().len(),
        ensures
            r.deep_view() == self.rows()[i as int].1,
    {
        &self.entries[i].1
    }

    /// Where the row with the key stands, if there is one.
    pub fn find(&self, key: &K) -> (r: Option<usize>)
        ensures
            distinct_keys(self.rows()),
            match r {
                Some(i) => {
                    &&& i < self.rows().len()
                    &&& self.rows()[i as int].0 == key.deep_view()
                    &&& self.deep_view().contains_key(key.deep_view())
                    &&& self.deep_view()[key.deep_view()] == self.rows()[i as int].1
                },
                None => !self.deep_view().contains_key(key.deep_view()),
            },
    {
        proof {
            use_type_invariant(self);
            lemma_rows_map(self.rows());
        }
        let mut i: usize = 0;
        while i < self.entries.len()
            invariant
                i <= self.entries.len(),
                distinct_keys(self.rows()),
                self.rows().len() == self.entries.len(),
                forall|j: int| 0 <= j < i ==> self.rows()[j].0 != key.deep_view(),
            decreases self.entries.len() - i,
        {
            if self.entries[i].0.same(key) {
                proof {
                    lemma_rows_map(self.rows());
                    assert(self.rows()[i as int] == self.entries@[i as int].deep_view());
                }
                return Some(i);
            }
            i += 1;
        }
        None
    }

    /// Whether a row has the key.
    pub fn contains_key(&self, key: &K) -> (r: bool)
        ensures
            r == self.deep_view().contains_key(key.deep_view()),
    {
        match self.find(key) {
            Some(_) => true,
            None => false,
        }
    }

    /// The value of the row with the key.
    pub fn get(&self, key: &K) -> (r: Option<&V>)
        ensures
            match r {
                Some(v) => {
                    &&& self.deep_view().contains_key(key.deep_view())
                    &&& v.deep_view() == self.deep_view()[key.deep_view()]
                },
                None => !self.deep_view().contains_key(key.deep_view()),
            },
    {
        match self.find(key) {
            Some(i) => Some(self.value_at(i)),
            None => None,
        }
    }

    fn take_entries(&mut self) -> (r: Vec<(K, V)>)
        ensures
            r.deep_view() == old(self).rows(),
    {
        let mut taken = Table { entries: Vec::new() };
        core::mem::swap(self, &mut taken);
        taken.entries
    }

    /// Gives the key the value: in its row if there is one, else in a new last row.
    pub fn insert(&mut self, key: K, value: V) -> (r: Option<V>)
        ensures
            final(self).deep_view() == old(self).deep_view().insert(
                key.deep_view(),
                value.deep_view(),
            ),
            match r {
                Some(v) => {
                    &&& old(self).deep_view().contains_key(key.deep_view())
                    &&& v.deep_view() == old(self).deep_view()[key.deep_view()]
                    &&& row_keys(final(self).rows()) == row_keys(old(self).rows())
                },
                None => {
                    &&& !old(self).deep_view().contains_key(key.deep_view())
                    &&& final(self).rows() == old(self).rows().push(
                        (key.deep_view(), value.deep_view()),
                    )
                },
            },
    {
        let ghost before = self.rows();
        match self.find(&key) {
            Some(i) => {
                proof {
                    lemma_rows_update(before, i as int, value.deep_view());
                }
                let mut entries = self.take_entries();
                let r = set_row(&mut entries, i, value);
                *self = Table { entries };
                assert(row_keys(self.rows()) =~= row_keys(before));
                Some(r)
            },
            None => {
                proof {
                    lemma_rows_push(before, key.deep_view(), value.deep_view());
                }
                let mut entries = self.take_entries();
                push_row(&mut entries, key, value);
                *self = Table { entries };
                None
            },
        }
    }

    /// Takes the row with the key out, and keeps the others in order.
    pub fn remove(&mut self, key: &K) -> (r: Option<V>)
        ensures
            final(self).deep_view() == old(self).deep_view().remove(key.deep_view()),
            match r {
                Some(v) => {
                    &&& old(self).deep_view().contains_key(key.deep_view())
                    &&& v.deep_view() == old(self).deep_view()[key.deep_view()]
                    &&& final(self).rows() == old(self).rows().remove(
                        place_of(old(self).rows(), key.deep_view()),
                    )
                },
                None => {
                    &&& !old(self).deep_view().contains_key(key.deep_view())
                    &&& *final(self) == *old(self)
                },
            },
    {
        let ghost before = self.rows();
        match self.find(key) {
            Some(i) => {
                proof {
                    lemma_rows_remove(before, i as int);
                    assert(has_key(before, key.deep_view()));
                    assert(place_of(before, key.deep_view()) == i);
                }
                let mut entries = self.take_entries();
                let r = drop_row(&mut entries, i);
                *self = Table { entries };
                Some(r)
            },
            None => {
                assert(self.deep_view().remove(key.deep_view()) =~= self.deep_view());
                None
            },
        }
    }

    /// The keys, in the order of the rows.
    pub fn keys(&self) -> (r: Vec<K>)
        ensures
            r.deep_view() == row_keys(self.rows()),
            r.deep_view().no_duplicates(),
            r.deep_view().to_set() == self.deep_view().dom(),
    {
        proof {
            use_type_invariant(self);
            lemma_rows_map(self.rows());
        }
        let mut r: Vec<K> = Vec::new();
        let mut i: usize = 0;
        while i < self.entries.len()
            invariant
                i <= self.entries.len(),
                r.len() == i,
                self.rows().len() == self.entries.len(),
                forall|j: int| 0 <= j < i ==> r@[j].deep_view() == self.rows()[j].0,
            decreases self.entries.len() - i,
        {
            r.push(self.entries[i].0.duplicate());
            i += 1;
        }
        assert(r.deep_view() =~= row_keys(self.rows()));
        r
    }
}

impl<K: Data, V: Data> Data for Table<K, V> {
    fn same(&self, other: &Self) -> (r: bool) {
        proof {
            use_type_invariant(self);
            use_type_invariant(other);
            lemma_rows_map(self.rows());
            lemma_rows_map(other.rows());
        }
        if self.len() != other.len() {
            return false;
        }
        let mut i: usize = 0;
        while i < self.len()
            invariant
                i <= self.rows().len(),
                self.rows().len() == other.rows().len(),
                distinct_keys(self.rows()),
                distinct_keys(other.rows()),
                forall|j: int|
                    0 <= j < i ==> {
                        &&& other.deep_view().contains_key((#[trigger] self.rows()[j]).0)
                        &&& other.deep_view()[self.rows()[j].0] == self.rows()[j].1
                    },
            decreases self.rows().len() - i,
        {
            proof {
                lemma_rows_map(self.rows());
            }
            match other.get(self.key_at(i)) {
                Some(v) => {
                    if !v.same(self.value_at(i)) {
                        return false;
                    }
                },
                None => {
                    return false;
                },
            }
            i += 1;
        }
        proof {
            lemma_rows_map(self.rows());
            lemma_rows_map(other.rows());
            let a = self.deep_view();
            let b = other.deep_view();
            assert forall|k: K::V| #[trigger] a.contains_key(k) implies b.contains_key(k) && a[k]
                == b[k] by {
                let j = place_of(self.rows(), k);
                assert(self.rows()[j].0 == k);
            }
            assert(a.dom().subset_of(b.dom()));
            vstd::set_lib::lemma_subset_equality(a.dom(), b.dom());
            assert(a =~= b);
        }
        true
    }

    fn duplicate(&self) -> (r: Self)
        ensures
            r.rows() == self.rows(),
    {
        proof {
            use_type_invariant(self);
        }
        Table { entries: self.entries.duplicate() }
    }
}

fn push_row<K: DeepView, V: DeepView>(rows: &mut Vec<(K, V)>, key: K, value: V)
    ensures
        final(rows).deep_view() == old(rows).deep_view().push((key.deep_view(), value.deep_view())),
{
    rows.push((key, value));
    assert(rows.deep_view() =~= old(rows).deep_view().push((key.deep_view(), value.deep_view())));
}

fn set_row<K: DeepView, V: DeepView>(rows: &mut Vec<(K, V)>, i: usize, value: V) -> (r: V)
    requires
        i < old(rows).len(),
    ensures
        final(rows).deep_view() == old(rows).deep_view().update(
            i as int,
            (old(rows).deep_view()[i as int].0, value.deep_view()),
        ),
        r.deep_view() == old(rows).deep_view()[i as int].1,
{
    let mut r = value;
    let row = &mut rows[i];
    core::mem::swap(&mut row.1, &mut r);
    assert(rows.deep_view() =~= old(rows).deep_view().update(
        i as int,
        (old(rows).deep_view()[i as int].0, value.deep_view()),
    ));
    r
}

fn drop_row<K: DeepView, V: DeepView>(rows: &mut Vec<(K, V)>, i: usize) -> (r: V)
    requires
        i < old(rows).len(),
    ensures
        final(rows).deep_view() == old(rows).deep_view().remove(i as int),
        r.deep_view() == old(rows).deep_view()[i as int].1,
{
    let row = rows.remove(i);
    assert(rows.deep_view() =~= old(rows).deep_view().remove(i as int));
    row.1
}

/// A set whose members are kept in the order in which they came.
pub struct ListSet<T: DeepView> {
    members: Table<T, ()>,
}

impl<T: DeepView> DeepView for ListSet<T> {
    type V = Set<T::V>;

    closed spec fn deep_view(&self) -> Set<T::V> {
        self.members.deep_view().dom()
    }
}

impl<T: DeepView> ListSet<T> {
    /// The members in order.
    pub closed spec fn order(&self) -> Seq<T::V> {
        row_keys(self.members.rows())
    }
}

impl<T: Data> ListSet<T> {
    /// The empty set.
    pub fn new() -> (r: Self)
        ensures
            r.deep_view() == Set::<T::V>::empty(),
            r.order() == Seq::<T::V>::empty(),
    {
        let r = ListSet { members: Table::new() };
        assert(r.deep_view() =~= Set::empty());
        assert(r.order() =~= Seq::empty());
        r
    }

    /// The number of members.
    pub fn len(&self) -> (r: usize)
        ensures
            r == self.deep_view().len(),
            r == self.order().len(),
            self.deep_view().finite(),
            self.order().no_duplicates(),
            self.order().to_set() == self.deep_view(),
    {
        let r: usize = self.members.len();
        proof {
            lemma_rows_map(self.members.rows());
        }
        r
    }

    /// Whether there is no member.
    pub fn is_empty(&self) -> (r: bool)
        ensures
            r == (self.deep_view() == Set::<T::V>::empty()),
    {
        let r = self.members.is_empty();
        proof {
            if r {
                assert(self.deep_view() =~= Set::empty());
            } else if self.deep_view() == Set::<T::V>::empty() {
                assert(self.members.deep_view() =~= Map::empty());
            }
        }
        r
    }

    /// The member at a place.
    pub fn at(&self, i: usize) -> (r: &T)
        requires
            i < self.order().len(),
        ensures
            r.deep_view() == self.order()[i as int],
    {
        self.members.key_at(i)
    }

    /// Whether `x` is a member.
    pub fn contains(&self, x: &T) -> (r: bool)
        ensures
            r == self.deep_view().contains(x.deep_view()),
    {
        self.members.contains_key(x)
    }

    /// Makes `x` a member, and says whether it was none.
    pub fn insert(&mut self, x: T) -> (r: bool)
        ensures
            final(self).deep_view() == old(self).deep_view().insert(x.deep_view()),
            r == !old(self).deep_view().contains(x.deep_view()),
            final(self).order() == (if r {
                old(self).order().push(x.deep_view())
            } else {
                old(self).order()
            }),
    {
        let ghost model = x.deep_view();
        let r = self.members.insert(x, ()).is_none();
        proof {
            assert(self.deep_view() =~= old(self).deep_view().insert(model));
            if r {
                assert(self.order() =~= old(self).order().push(model));
            }
        }
        r
    }

    /// Takes `x` out, and says whether it was a member.
    pub fn remove(&mut self, x: &T) -> (r: bool)
        ensures
            final(self).deep_view() == old(self).deep_view().remove(x.deep_view()),
            r == old(self).deep_view().contains(x.deep_view()),
    {
        let r = self.members.remove(x).is_some();
        assert(self.deep_view() =~= old(self).deep_view().remove(x.deep_view()));
        r
    }

    /// The members in order.
    pub fn to_vec(&self) -> (r: Vec<T>)
        ensures
            r.deep_view() == self.order(),
            r.deep_view().no_duplicates(),
            r.deep_view().to_set() == self.deep_view(),
    {
        self.members.keys()
    }
}

impl<T: Data> Data for ListSet<T> {
    fn same(&self, other: &Self) -> (r: bool) {
        let r = self.members.same(&other.members);
        proof {
            if self.deep_view() == other.deep_view() {
                assert(self.members.deep_view() =~= other.members.deep_view());
            }
        }
        r
    }

    fn duplicate(&self) -> (r: Self)
        ensures
            r.order() == self.order(),
    {
        ListSet { members: self.members.duplicate() }
    }
}

} // verus!
