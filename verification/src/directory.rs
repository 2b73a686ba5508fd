//! A map from keys to values that is looked up through a hashed index.
use crate::data::Data;
use crate::table::{
    distinct_keys, lemma_rows_map, lemma_rows_push, lemma_rows_swap_remove, lemma_rows_update,
    row_keys, rows_map,
};
use dashmap::DashMap;
use vstd::prelude::*;

verus! {

/// `dashmap::DashMap`, the sharded concurrent hash map.
#[verifier::external_type_specification]
#[verifier::external_body]
#[verifier::reject_recursive_types(K)]
#[verifier::reject_recursive_types(V)]
#[verifier::reject_recursive_types(S)]
pub struct ExDashMap<K, V, S>(dashmap::DashMap<K, V, S>);

/// What an index holds: the number filed under each spelling.
pub uninterp spec fn filed(m: DashMap<Vec<u64>, u64>) -> Map<Seq<u64>, u64>;

/// `DashMap::new`: the map is empty.
#[verifier::external_body]
fn index_new() -> (r: DashMap<Vec<u64>, u64>)
    ensures
        filed(r).dom() == Set::<Seq<u64>>::empty(),
{
    DashMap::new()
}

/// `DashMap::get`, with the number copied out: what is filed under the
/// spelling, or nothing where nothing is.
#[verifier::external_body]
fn index_get(m: &DashMap<Vec<u64>, u64>, words: &Vec<u64>) -> (r: Option<u64>)
    ensures
        r == (if filed(*m).contains_key(words@) {
            Some(filed(*m)[words@])
        } else {
            None
        }),
{
    m.get(words).map(|number| *number)
}

/// `DashMap::insert`: files the number under the spelling, in place of what
/// was there, which it returns.
#[verifier::external_body]
fn index_insert(m: &mut DashMap<Vec<u64>, u64>, words: Vec<u64>, number: u64) -> (r: Option<u64>)
    ensures
        filed(*final(m)) == filed(*old(m)).insert(words@, number),
        r == (if filed(*old(m)).contains_key(words@) {
            Some(filed(*old(m))[words@])
        } else {
            None
        }),
{
    m.insert(words, number)
}

/// `DashMap::remove`, with the number alone returned: takes away what is filed
/// under the spelling, and leaves the rest.
#[verifier::external_body]
fn index_remove(m: &mut DashMap<Vec<u64>, u64>, words: &Vec<u64>) -> (r: Option<u64>)
    ensures
        filed(*final(m)) == filed(*old(m)).remove(words@),
        r == (if filed(*old(m)).contains_key(words@) {
            Some(filed(*old(m))[words@])
        } else {
            None
        }),
{
    m.remove(words).map(|entry| entry.1)
}

/// A value that can be filed: it has a spelling in words that no value of
/// another meaning shares.
pub trait Key: Data {
    /// The words that spell the value.
    spec fn spelling(model: Self::V) -> Seq<u64>;

    /// No two meanings are spelled alike.
    proof fn spelled_once(a: Self::V, b: Self::V)
        requires
            Self::spelling(a) == Self::spelling(b),
        ensures
            a == b,
    ;

    /// Spells the value.
    fn spell(&self) -> (r: Vec<u64>)
        ensures
            r@ == Self::spelling(self.deep_view()),
    ;
}

impl Key for u64 {
    open spec fn spelling(model: u64) -> Seq<u64> {
        seq![model]
    }

    proof fn spelled_once(a: u64, b: u64) {
        assert(seq![a][0] == seq![b][0]);
    }

    fn spell(&self) -> (r: Vec<u64>) {
        let r = vec![*self];
        assert(r@ =~= seq![*self]);
        r
    }
}

proof fn lemma_same_code(a: char, b: char)
    requires
        a as u32 == b as u32,
    ensures
        a == b,
{
}

impl Key for String {
    open spec fn spelling(model: Seq<char>) -> Seq<u64> {
        Seq::new(model.len(), |i: int| model[i] as u32 as u64)
    }

    proof fn spelled_once(a: Seq<char>, b: Seq<char>) {
        let x = Self::spelling(a);
        let y = Self::spelling(b);
        assert(a.len() == x.len() && b.len() == y.len());
        assert forall|i: int| 0 <= i < a.len() implies a[i] == b[i] by {
            assert(x[i] == a[i] as u32 as u64);
            assert(y[i] == b[i] as u32 as u64);
            lemma_same_code(a[i], b[i]);
        }
        assert(a =~= b);
    }

    fn spell(&self) -> (r: Vec<u64>) {
        let mut r: Vec<u64> = Vec::new();
        let text = self.as_str();
        let n: usize = text.unicode_len();
        let mut i: usize = 0;
        while i < n
            invariant
                i <= n,
                n == text@.len(),
                r.len() == i,
                forall|j: int| 0 <= j < i ==> r@[j] == text@[j] as u32 as u64,
            decreases n - i,
        {
            r.push(text.get_char(i) as u32 as u64);
            i += 1;
        }
        assert(r@ =~= Self::spelling(self.deep_view()));
        r
    }
}

impl Key for Vec<u8> {
    open spec fn spelling(model: Seq<u8>) -> Seq<u64> {
        Seq::new(model.len(), |i: int| model[i] as u64)
    }

    proof fn spelled_once(a: Seq<u8>, b: Seq<u8>) {
        let x = Self::spelling(a);
        let y = Self::spelling(b);
        assert(a.len() == x.len() && b.len() == y.len());
        assert forall|i: int| 0 <= i < a.len() implies a[i] == b[i] by {
            assert(x[i] == a[i] as u64);
            assert(y[i] == b[i] as u64);
            lemma_same_byte(a[i], b[i]);
        }
        assert(a =~= b);
    }

    fn spell(&self) -> (r: Vec<u64>) {
        let mut r: Vec<u64> = Vec::new();
        let mut i: usize = 0;
        while i < self.len()
            invariant
                i <= self.len(),
                r.len() == i,
                forall|j: int| 0 <= j < i ==> r@[j] == self.deep_view()[j] as u64,
            decreases self.len() - i,
        {
            r.push(self[i] as u64);
            i += 1;
        }
        assert(r@ =~= Self::spelling(self.deep_view()));
        r
    }
}

proof fn lemma_same_byte(a: u8, b: u8)
    requires
        a as u64 == b as u64,
    ensures
        a == b,
{
}

/// Rows with distinct keys, found through an index of their places.
pub struct Directory<K: Key, V: DeepView> {
    index: DashMap<Vec<u64>, u64>,
    entries: Vec<(K, V)>,
}

impl<K: Key, V: DeepView> DeepView for Directory<K, V> {
    type V = Map<K::V, V::V>;

    open spec fn deep_view(&self) -> Map<K::V, V::V> {
        rows_map(self.rows())
    }
}

impl<K: Key, V: DeepView> Directory<K, V> {
    /// The rows, in no particular order.
    pub closed spec fn rows(&self) -> Seq<(K::V, V::V)> {
        self.entries.deep_view()
    }

    /// The index holds the place of every row, and nothing else.
    pub closed spec fn well_formed(&self) -> bool {
        let places = filed(self.index);
        let rows = self.rows();
        &&& forall|i: int|
            0 <= i < rows.len() ==> {
                &&& places.contains_key(K::spelling((#[trigger] rows[i]).0))
                &&& places[K::spelling(rows[i].0)] == i
            }
        &&& forall|words: Seq<u64>| #[trigger]
            places.contains_key(words) ==> {
                &&& places[words] < rows.len()
                &&& K::spelling(rows[places[words] as int].0) == words
            }
    }

    /// No key has two rows.
    pub proof fn lemma_distinct(&self)
        requires
            self.well_formed(),
        ensures
            distinct_keys(self.rows()),
    {
    }

    /// A directory without rows.
    pub fn new() -> (r: Self)
        ensures
            r.well_formed(),
            r.deep_view() == Map::<K::V, V::V>::empty(),
            r.rows().len() == 0,
    {
        let r = Directory { index: index_new(), entries: Vec::new() };
        assert(r.rows().len() == 0);
        assert(r.deep_view() =~= Map::empty());
        r
    }

    /// The number of rows.
    pub fn len(&self) -> (r: usize)
        requires
            self.well_formed(),
        ensures
            r == self.rows().len(),
            r == self.deep_view().dom().len(),
            self.deep_view().dom().finite(),
            distinct_keys(self.rows()),
    {
        proof {
            lemma_rows_map(self.rows());
        }
        self.entries.len()
    }

    /// The key of the row at a place.
    pub fn key_at(&self, i: usize) -> (r: &K)
        requires
            i < self.rows().len(),
        ensures
            r.deep_view() == self.rows()[i as int].0,
    {
        &self.entries[i].0
    }

    /// The value of the row at a place.
    pub fn value_at(&self, i: usize) -> (r: &V)
        requires
            i < self.rows().len(),
        ensures
            r.deep_view() == self.rows()[i as int].1,
    {
        &self.entries[i].1
    }

    /// Where the row with the key stands, if there is one.
    pub fn find(&self, key: &K) -> (r: Option<usize>)
        requires
            self.well_formed(),
        ensures
            match r {
                Some(i) => {
                    &&& i < self.rows().len()
                    &&& self.rows()[i as int].0 == key.deep_view()
                    &&& self.deep_view().contains_key(key.deep_view())
                    &&& self.deep_view()[key.deep_view()] == self.rows()[i as int].1
                },
                None => !self.deep_view().contains_key(key.deep_view()),
            },
    {
        let words = key.spell();
        let found = index_get(&self.index, &words);
        proof {
            lemma_rows_map(self.rows());
            assert(self.rows().len() == self.entries.len());
            if let Some(i) = found {
                K::spelled_once(self.rows()[i as int].0, key.deep_view());
            }
        }
        match found {
            Some(i) => Some(i as usize),
            None => None,
        }
    }

    /// Whether a row has the key.
    pub fn contains_key(&self, key: &K) -> (r: bool)
        requires
            self.well_formed(),
        ensures
            r == self.deep_view().contains_key(key.deep_view()),
    {
        match self.find(key) {
            Some(_) => true,
            None => false,
        }
    }

    /// The value of the row with the key.
    pub fn get(&self, key: &K) -> (r: Option<&V>)
        requires
            self.well_formed(),
        ensures
            match r {
                Some(v) => {
                    &&& self.deep_view().contains_key(key.deep_view())
                    &&& v.deep_view() == self.deep_view()[key.deep_view()]
                },
                None => !self.deep_view().contains_key(key.deep_view()),
            },
    {
        match self.find(key) {
            Some(i) => Some(self.value_at(i)),
            None => None,
        }
    }

    /// Gives the key the value: in its row if there is one, else in a new row.
    pub fn insert(&mut self, key: K, value: V) -> (r: Option<V>)
        requires
            old(self).well_formed(),
        ensures
            final(self).well_formed(),
            final(self).deep_view() == old(self).deep_view().insert(
                key.deep_view(),
                value.deep_view(),
            ),
            match r {
                Some(v) => {
                    &&& old(self).deep_view().contains_key(key.deep_view())
                    &&& v.deep_view() == old(self).deep_view()[key.deep_view()]
                },
                None => !old(self).deep_view().contains_key(key.deep_view()),
            },
    {
        let ghost before = self.rows();
        proof {
            self.lemma_distinct();
            lemma_rows_map(before);
        }
        match self.find(&key) {
            Some(i) => {
                proof {
                    lemma_rows_update(before, i as int, value.deep_view());
                }
                let mut r = value;
                let row = &mut self.entries[i];
                core::mem::swap(&mut row.1, &mut r);
                assert(self.rows() =~= before.update(i as int, (before[i as int].0, value.deep_view())));
                Some(r)
            },
            None => {
                proof {
                    lemma_rows_push(before, key.deep_view(), value.deep_view());
                }
                let ghost places = filed(self.index);
                let words = key.spell();
                let place: u64 = self.entries.len() as u64;
                index_insert(&mut self.index, words, place);
                self.entries.push((key, value));
                proof {
                    assert(self.rows() =~= before.push((key.deep_view(), value.deep_view())));
                    assert forall|i: int| 0 <= i < self.rows().len() implies {
                        &&& filed(self.index).contains_key(K::spelling((#[trigger] self.rows()[i]).0))
                        &&& filed(self.index)[K::spelling(self.rows()[i].0)] == i
                    } by {
                        if i < before.len() {
                            assert(self.rows()[i] == before[i]);
                            if K::spelling(before[i].0) == words@ {
                                K::spelled_once(before[i].0, key.deep_view());
                            }
                        }
                    }
                }
                None
            },
        }
    }

    /// Takes the row with the key out.
    pub fn remove(&mut self, key: &K) -> (r: Option<V>)
        requires
            old(self).well_formed(),
        ensures
            final(self).well_formed(),
            final(self).deep_view() == old(self).deep_view().remove(key.deep_view()),
            match r {
                Some(v) => {
                    &&& old(self).deep_view().contains_key(key.deep_view())
                    &&& v.deep_view() == old(self).deep_view()[key.deep_view()]
                },
                None => {
                    &&& !old(self).deep_view().contains_key(key.deep_view())
                    &&& *final(self) == *old(self)
                },
            },
    {
        let ghost before = self.rows();
        proof {
            self.lemma_distinct();
            lemma_rows_map(before);
        }
        match self.find(key) {
            Some(i) => {
                let words = key.spell();
                index_remove(&mut self.index, &words);
                let last: usize = self.entries.len() - 1;
                if i < last {
                    let moved = self.entries[last].0.spell();
                    index_insert(&mut self.index, moved, i as u64);
                }
                let row = self.entries.swap_remove(i);
                let ghost after = before.update(i as int, before.last()).drop_last();
                proof {
                    assert(self.rows() =~= after);
                    assert forall|a: int, b: int| 0 <= a < before.len() && 0 <= b < before.len()
                        && a != b implies K::spelling((#[trigger] before[a]).0) != K::spelling(
                        (#[trigger] before[b]).0,
                    ) by {
                        if K::spelling(before[a].0) == K::spelling(before[b].0) {
                            K::spelled_once(before[a].0, before[b].0);
                        }
                    }
                    assert(self.well_formed());
                    lemma_rows_swap_remove(before, i as int);
                }
                Some(row.1)
            },
            None => {
                assert(self.deep_view().remove(key.deep_view()) =~= self.deep_view());
                None
            },
        }
    }

    /// The keys, in no particular order.
    pub fn keys(&self) -> (r: Vec<K>)
        requires
            self.well_formed(),
        ensures
            r.deep_view() == row_keys(self.rows()),
            r.deep_view().no_duplicates(),
            r.deep_view().to_set() == self.deep_view().dom(),
    {
        proof {
            self.lemma_distinct();
            lemma_rows_map(self.rows());
        }
        let mut r: Vec<K> = Vec::new();
        let mut i: usize = 0;
        while i < self.entries.len()
            invariant
                i <= self.entries.len(),
                r.len() == i,
                self.rows().len() == self.entries.len(),
                forall|j: int| 0 <= j < i ==> r@[j].deep_view() == self.rows()[j].0,
            decreases self.entries.len() - i,
        {
            r.push(self.entries[i].0.duplicate());
            i += 1;
        }
        assert(r.deep_view() =~= row_keys(self.rows()));
        r
    }
}

} // verus!
