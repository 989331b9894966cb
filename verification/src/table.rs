//! A map kept in the order in which its keys were first inserted.
use vstd::prelude::*;

verus! {

/// Whether no key occurs twice.
pub open spec fn distinct_keys<K, V>(pairs: Seq<(K, V)>) -> bool {
    forall|i: int, j: int| 0 <= i < j < pairs.len() ==> #[trigger] pairs[i].0 != #[trigger] pairs[j].0
}

/// Whether `key` is the key of one of the pairs.
pub open spec fn has_key<K, V>(pairs: Seq<(K, V)>, key: K) -> bool {
    exists|i: int| 0 <= i < pairs.len() && #[trigger] pairs[i].0 == key
}

/// The map that results from inserting the pairs one after another: of the pairs with one key, the
/// last decides.
pub open spec fn collected<K, V>(pairs: Seq<(K, V)>) -> Map<K, V>
    decreases pairs.len(),
{
    if pairs.len() == 0 {
        Map::empty()
    } else {
        collected(pairs.drop_last()).insert(pairs.last().0, pairs.last().1)
    }
}

/// `pairs` with `value` at `key`: in the place that `key` has, or else at the end.
pub open spec fn upsert<K, V>(pairs: Seq<(K, V)>, key: K, value: V) -> Seq<(K, V)> {
    if has_key(pairs, key) {
        Seq::new(
            pairs.len(),
            |i: int|
                if pairs[i].0 == key {
                    (key, value)
                } else {
                    pairs[i]
                },
        )
    } else {
        pairs.push((key, value))
    }
}

/// The pairs that remain when `pairs` are inserted one after another, in the order in which their
/// keys came first.
pub open spec fn upserted<K, V>(pairs: Seq<(K, V)>) -> Seq<(K, V)>
    decreases pairs.len(),
{
    if pairs.len() == 0 {
        Seq::empty()
    } else {
        upsert(upserted(pairs.drop_last()), pairs.last().0, pairs.last().1)
    }
}

/// Whether no later pair has the key of the pair at `i`.
pub open spec fn is_last_of_key<K, V>(pairs: Seq<(K, V)>, i: int) -> bool {
    &&& 0 <= i < pairs.len()
    &&& forall|j: int| i < j < pairs.len() ==> #[trigger] pairs[j].0 != pairs[i].0
}

/// The collected map holds just the keys of the pairs.
pub proof fn lemma_collected_keys<K, V>(pairs: Seq<(K, V)>, key: K)
    ensures
        collected(pairs).contains_key(key) <==> has_key(pairs, key),
    decreases pairs.len(),
{
    if pairs.len() > 0 {
        let front = pairs.drop_last();
        lemma_collected_keys(front, key);
        if has_key(pairs, key) {
            let i = choose|i: int| 0 <= i < pairs.len() && #[trigger] pairs[i].0 == key;
            if i < front.len() {
                assert(front[i].0 == key);
            }
        }
        if has_key(front, key) {
            let i = choose|i: int| 0 <= i < front.len() && #[trigger] front[i].0 == key;
            assert(pairs[i].0 == key);
        }
        if key == pairs.last().0 {
            assert(pairs[pairs.len() - 1].0 == key);
        }
    }
}

/// The collected map holds at each key the value of the last pair with that key.
pub proof fn lemma_last_decides<K, V>(pairs: Seq<(K, V)>, i: int)
    requires
        is_last_of_key(pairs, i),
    ensures
        collected(pairs).contains_key(pairs[i].0),
        collected(pairs)[pairs[i].0] == pairs[i].1,
    decreases pairs.len(),
{
    let front = pairs.drop_last();
    if i < front.len() {
        assert(pairs[pairs.len() - 1].0 != pairs[i].0);
        assert forall|j: int| i < j < front.len() implies #[trigger] front[j].0 != front[i].0 by {
            assert(pairs[j].0 != pairs[i].0);
        }
        lemma_last_decides(front, i);
    }
}

/// With distinct keys the collected map is the pairs.
pub proof fn lemma_collected_distinct<K, V>(pairs: Seq<(K, V)>, i: int)
    requires
        distinct_keys(pairs),
        0 <= i < pairs.len(),
    ensures
        collected(pairs).contains_key(pairs[i].0),
        collected(pairs)[pairs[i].0] == pairs[i].1,
{
    lemma_last_decides(pairs, i);
}

/// One insertion keeps the keys distinct and acts on the collected map as an insertion.
pub proof fn lemma_upsert<K, V>(pairs: Seq<(K, V)>, key: K, value: V)
    requires
        distinct_keys(pairs),
    ensures
        distinct_keys(upsert(pairs, key, value)),
        collected(upsert(pairs, key, value)) == collected(pairs).insert(key, value),
{
    let next = upsert(pairs, key, value);
    if has_key(pairs, key) {
        assert(distinct_keys(next)) by {
            assert forall|i: int, j: int| 0 <= i < j < next.len() implies #[trigger] next[i].0
                != #[trigger] next[j].0 by {
                assert(pairs[i].0 != pairs[j].0);
            }
        }
        let before = collected(pairs).insert(key, value);
        let after = collected(next);
        let at = choose|i: int| 0 <= i < pairs.len() && #[trigger] pairs[i].0 == key;
        assert forall|k: K| #[trigger] after.contains_key(k) == before.contains_key(k) by {
            lemma_collected_keys(pairs, k);
            lemma_collected_keys(next, k);
            if has_key(pairs, k) {
                let i = choose|i: int| 0 <= i < pairs.len() && #[trigger] pairs[i].0 == k;
                assert(next[i].0 == k);
            }
            if has_key(next, k) {
                let i = choose|i: int| 0 <= i < next.len() && #[trigger] next[i].0 == k;
                assert(pairs[i].0 == k);
            }
            if k == key {
                assert(next[at].0 == k);
            }
        }
        assert forall|k: K| after.contains_key(k) implies #[trigger] after[k] == before[k] by {
            lemma_collected_keys(next, k);
            let i = choose|i: int| 0 <= i < next.len() && #[trigger] next[i].0 == k;
            lemma_collected_distinct(next, i);
            lemma_collected_distinct(pairs, i);
        }
        assert(after =~= before);
    } else {
        assert(distinct_keys(next)) by {
            assert forall|i: int, j: int| 0 <= i < j < next.len() implies #[trigger] next[i].0
                != #[trigger] next[j].0 by {
                assert(next[i] == pairs[i]);
                if j < pairs.len() {
                    assert(next[j] == pairs[j]);
                } else {
                    assert(pairs[i].0 != key);
                }
            }
        }
        assert(next.drop_last() =~= pairs);
    }
}

/// Inserting pairs one after another leaves distinct keys, and the map that the pairs collect to.
pub proof fn lemma_upserted<K, V>(pairs: Seq<(K, V)>)
    ensures
        distinct_keys(upserted(pairs)),
        collected(upserted(pairs)) == collected(pairs),
    decreases pairs.len(),
{
    if pairs.len() > 0 {
        lemma_upserted(pairs.drop_last());
        lemma_upsert(upserted(pairs.drop_last()), pairs.last().0, pairs.last().1);
    }
}

/// A type whose values can be told apart as keys.
pub trait Key: DeepView + Sized {
    /// Whether both stand for the same key.
    fn same_key(&self, other: &Self) -> (same: bool)
        ensures
            same == (self.deep_view() == other.deep_view()),
    ;
}

impl Key for String {
    fn same_key(&self, other: &String) -> (same: bool) {
        *self == *other
    }
}

/// A map from keys to values that keeps the order in which its keys came first.
#[derive(Debug)]
pub struct Table<K, V> {
    entries: Vec<(K, V)>,
}

impl<K: Key, V: DeepView> Table<K, V> {
    /// The pairs of the map, in order.
    pub closed spec fn pairs(self) -> Seq<(<K as DeepView>::V, <V as DeepView>::V)> {
        self.entries.deep_view()
    }

    /// No key stands in the table twice.
    pub open spec fn wf(self) -> bool {
        distinct_keys(self.pairs())
    }

    /// An empty table.
    pub fn new() -> (res: Self)
        ensures
            res.wf(),
            res.pairs() == Seq::<(<K as DeepView>::V, <V as DeepView>::V)>::empty(),
    {
        let res = Table { entries: Vec::new() };
        assert(res.pairs() =~= Seq::empty());
        res
    }

    /// How many keys there are.
    pub fn len(&self) -> (n: usize)
        ensures
            n == self.pairs().len(),
    {
        self.entries.len()
    }

    /// The key of the pair at `index`.
    pub fn key(&self, index: usize) -> (key: &K)
        requires
            index < self.pairs().len(),
        ensures
            key.deep_view() == self.pairs()[index as int].0,
    {
        &self.entries[index].0
    }

    /// The value of the pair at `index`.
    pub fn value(&self, index: usize) -> (value: &V)
        requires
            index < self.pairs().len(),
        ensures
            value.deep_view() == self.pairs()[index as int].1,
    {
        &self.entries[index].1
    }

    /// Where `key` stands.
    fn position(&self, key: &K) -> (res: Option<usize>)
        ensures
            match res {
                Some(i) => i < self.pairs().len() && self.pairs()[i as int].0 == key.deep_view(),
                None => !has_key(self.pairs(), key.deep_view()),
            },
    {
        let mut i: usize = 0;
        while i < self.entries.len()
            invariant
                i <= self.entries.len(),
                forall|j: int| 0 <= j < i ==> #[trigger] self.pairs()[j].0 != key.deep_view(),
            decreases self.entries.len() - i,
        {
            if self.entries[i].0.same_key(key) {
                return Some(i);
            }
            i = i + 1;
        }
        None
    }

    /// The value at `key`.
    pub fn get(&self, key: &K) -> (res: Option<&V>)
        requires
            self.wf(),
        ensures
            match res {
                Some(value) => {
                    &&& self@.contains_key(key.deep_view())
                    &&& self@[key.deep_view()] == value.deep_view()
                },
                None => !self@.contains_key(key.deep_view()),
            },
    {
        proof {
            lemma_collected_keys(self.pairs(), key.deep_view());
        }
        match self.position(key) {
            Some(i) => {
                proof {
                    lemma_collected_distinct(self.pairs(), i as int);
                }
                Some(&self.entries[i].1)
            },
            None => None,
        }
    }

    /// Puts `value` at `key`, in the place of an earlier value if there is one.
    pub fn insert(&mut self, key: K, value: V)
        requires
            old(self).wf(),
        ensures
            final(self).wf(),
            final(self)@ == old(self)@.insert(key.deep_view(), value.deep_view()),
            final(self).pairs() == upsert(old(self).pairs(), key.deep_view(), value.deep_view()),
    {
        let ghost k = key.deep_view();
        let ghost v = value.deep_view();
        proof {
            lemma_upsert(self.pairs(), k, v);
        }
        match self.position(&key) {
            Some(i) => {
                self.entries.set(i, (key, value));
                proof {
                    let pairs = old(self).pairs();
                    assert forall|j: int| 0 <= j < pairs.len() implies #[trigger] self.pairs()[j]
                        == upsert(pairs, k, v)[j] by {
                        if j < i {
                            assert(pairs[j].0 != pairs[i as int].0);
                        }
                        if j > i {
                            assert(pairs[i as int].0 != pairs[j].0);
                        }
                    }
                    assert(self.pairs() =~= upsert(pairs, k, v));
                }
            },
            None => {
                self.entries.push((key, value));
                assert(self.pairs() =~= upsert(old(self).pairs(), k, v));
            },
        }
    }
}

impl<K: Key, V: DeepView> View for Table<K, V> {
    type V = Map<<K as DeepView>::V, <V as DeepView>::V>;

    open spec fn view(&self) -> Map<<K as DeepView>::V, <V as DeepView>::V> {
        collected(self.pairs())
    }
}

} // verus!
