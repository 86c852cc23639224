//! A map from strings that keeps the order in which its keys first came.

use vstd::prelude::*;

use crate::text::same_text;

verus! {

/// Whether no key occurs twice in `pairs`.
pub open spec fn distinct_keys<T>(pairs: Seq<(Seq<char>, T)>) -> bool {
    forall|i: int, j: int|
        0 <= i < j < pairs.len() ==> (#[trigger] pairs[i]).0 != (#[trigger] pairs[j]).0
}

/// The map that comes of inserting `pairs` one after the other.
pub open spec fn pairs_map<T>(pairs: Seq<(Seq<char>, T)>) -> Map<Seq<char>, T>
    decreases pairs.len(),
{
    if pairs.len() == 0 {
        Map::empty()
    } else {
        pairs_map(pairs.drop_last()).insert(pairs.last().0, pairs.last().1)
    }
}

/// The position of the first pair with the key `key`, or the number of pairs where there is none.
pub open spec fn key_position<T>(pairs: Seq<(Seq<char>, T)>, key: Seq<char>) -> int
    decreases pairs.len(),
{
    if pairs.len() == 0 {
        0
    } else if key_position(pairs.drop_last(), key) < pairs.len() - 1 {
        key_position(pairs.drop_last(), key)
    } else if pairs.last().0 == key {
        pairs.len() - 1
    } else {
        pairs.len() as int
    }
}

/// `pairs` with `value` under `key`: in the place of the pair that has this key, else at the end.
pub open spec fn put<T>(pairs: Seq<(Seq<char>, T)>, key: Seq<char>, value: T) -> Seq<
    (Seq<char>, T),
> {
    let i = key_position(pairs, key);
    if i < pairs.len() {
        pairs.update(i, (key, value))
    } else {
        pairs.push((key, value))
    }
}

/// A key's position is where it first occurs.
pub proof fn lemma_key_position<T>(pairs: Seq<(Seq<char>, T)>, key: Seq<char>)
    ensures
        0 <= key_position(pairs, key) <= pairs.len(),
        key_position(pairs, key) < pairs.len() ==> pairs[key_position(pairs, key)].0 == key,
        forall|j: int| 0 <= j < key_position(pairs, key) ==> (#[trigger] pairs[j]).0 != key,
    decreases pairs.len(),
{
    if pairs.len() > 0 {
        let front = pairs.drop_last();
        lemma_key_position(front, key);
        assert forall|j: int| 0 <= j < key_position(pairs, key) implies (#[trigger] pairs[j]).0
            != key by {
            if j < front.len() {
                assert(front[j] == pairs[j]);
            }
        }
    }
}

/// The map of pairs with distinct keys holds exactly these pairs.
pub proof fn lemma_pairs_map<T>(pairs: Seq<(Seq<char>, T)>)
    requires
        distinct_keys(pairs),
    ensures
        forall|i: int|
            0 <= i < pairs.len() ==> pairs_map(pairs).contains_key((#[trigger] pairs[i]).0)
                && pairs_map(pairs)[pairs[i].0] == pairs[i].1,
        forall|k: Seq<char>| #[trigger]
            pairs_map(pairs).contains_key(k) ==> key_position(pairs, k) < pairs.len(),
        forall|k: Seq<char>|
            key_position(pairs, k) < pairs.len() ==> #[trigger] pairs_map(pairs).contains_key(k)
                && pairs_map(pairs)[k] == pairs[key_position(pairs, k)].1,
    decreases pairs.len(),
{
    if pairs.len() > 0 {
        let front = pairs.drop_last();
        assert(distinct_keys(front)) by {
            assert forall|i: int, j: int| 0 <= i < j < front.len() implies (#[trigger] front[i]).0
                != (#[trigger] front[j]).0 by {
                assert(front[i] == pairs[i] && front[j] == pairs[j]);
            }
        }
        lemma_pairs_map(front);
        assert forall|i: int| 0 <= i < pairs.len() implies pairs_map(pairs).contains_key(
            (#[trigger] pairs[i]).0,
        ) && pairs_map(pairs)[pairs[i].0] == pairs[i].1 by {
            if i < front.len() {
                assert(front[i] == pairs[i]);
                assert(pairs[i].0 != pairs[front.len() as int].0);
            }
        }
        assert forall|k: Seq<char>| #[trigger] pairs_map(pairs).contains_key(k) implies key_position(
            pairs,
            k,
        ) < pairs.len() by {
            lemma_key_position(front, k);
        }
        assert forall|k: Seq<char>|
            key_position(pairs, k) < pairs.len() implies #[trigger] pairs_map(pairs).contains_key(k)
            && pairs_map(pairs)[k] == pairs[key_position(pairs, k)].1 by {
            lemma_key_position(pairs, k);
            let p = key_position(pairs, k);
            assert(pairs_map(pairs).contains_key(pairs[p].0));
        }
    }
}

/// Putting a pair keeps the keys distinct and inserts it into the map.
pub proof fn lemma_put<T>(pairs: Seq<(Seq<char>, T)>, key: Seq<char>, value: T)
    requires
        distinct_keys(pairs),
    ensures
        distinct_keys(put(pairs, key, value)),
        pairs_map(put(pairs, key, value)) == pairs_map(pairs).insert(key, value),
{
    lemma_key_position(pairs, key);
    let after = put(pairs, key, value);
    let p = key_position(pairs, key);
    assert forall|i: int, j: int| 0 <= i < j < after.len() implies (#[trigger] after[i]).0 != (
    #[trigger] after[j]).0 by {
        if p == pairs.len() {
            if j < pairs.len() {
                assert(after[i] == pairs[i] && after[j] == pairs[j]);
            } else {
                assert(after[i] == pairs[i]);
            }
        } else {
            assert(after[i].0 == pairs[i].0 && after[j].0 == pairs[j].0);
        }
    }
    if p < pairs.len() {
        lemma_pairs_map(pairs);
        lemma_pairs_map(after);
        let m = pairs_map(after);
        let n = pairs_map(pairs).insert(key, value);
        assert forall|k: Seq<char>| m.contains_key(k) <==> n.contains_key(k) by {
            lemma_key_position(pairs, k);
            lemma_key_position(after, k);
            if m.contains_key(k) {
                let i = key_position(after, k);
                assert(after[i].0 == pairs[i].0);
                assert(pairs_map(pairs).contains_key(pairs[i].0));
            }
            if n.contains_key(k) {
                if k == key {
                    assert(after[p].0 == k);
                } else {
                    let i = key_position(pairs, k);
                    assert(after[i].0 == pairs[i].0);
                    assert(m.contains_key(after[i].0));
                }
            }
        }
        assert forall|k: Seq<char>| m.contains_key(k) implies m[k] == n[k] by {
            lemma_key_position(after, k);
            let i = key_position(after, k);
            assert(after[i].0 == pairs[i].0);
            assert(m[after[i].0] == after[i].1);
            if i != p {
                assert(pairs_map(pairs)[pairs[i].0] == pairs[i].1);
                assert(pairs[i].0 != pairs[p].0);
            }
        }
        assert(m =~= n);
    } else {
        assert(after.drop_last() =~= pairs);
    }
}

/// `items` from the last to the first.
pub(crate) fn reversed<T>(items: Vec<T>) -> (r: Vec<T>)
    ensures
        r@ == items@.reverse(),
{
    let mut rest: Vec<T> = items;
    let mut r: Vec<T> = Vec::new();
    while rest.len() > 0
        invariant
            rest@ == items@.take(rest@.len() as int),
            rest@.len() + r@.len() == items@.len(),
            forall|i: int| 0 <= i < r@.len() ==> r@[i] == items@[items@.len() - 1 - i],
        decreases rest.len(),
    {
        let item: T = rest.pop().unwrap();
        r.push(item);
    }
    assert(r@ =~= items@.reverse());
    r
}

/// The keys and values of `entries`.
pub open spec fn pair_views<V: View>(entries: Seq<(String, V)>) -> Seq<(Seq<char>, V::V)> {
    entries.map_values(|e: (String, V)| (e.0@, e.1@))
}

/// A type whose values can be copied.
pub trait Duplicate: View + Sized {
    /// A value with the same contents.
    fn duplicate(&self) -> (r: Self)
        ensures
            r@ == self@,
    ;
}

impl Duplicate for String {
    fn duplicate(&self) -> (r: String) {
        self.clone()
    }
}

impl Duplicate for i64 {
    fn duplicate(&self) -> (r: i64) {
        *self
    }
}

impl Duplicate for Vec<i32> {
    fn duplicate(&self) -> (r: Vec<i32>) {
        let mut r: Vec<i32> = Vec::new();
        let mut i: usize = 0;
        while i < self.len()
            invariant
                i <= self.len(),
                r@ == self@.take(i as int),
            decreases self.len() - i,
        {
            r.push(self[i]);
            assert(self@.take(i + 1) == self@.take(i as int).push(self@[i as int]));
            i = i + 1;
        }
        assert(self@.take(self@.len() as int) == self@);
        r
    }
}

impl Duplicate for std::collections::HashMap<i32, i64> {
    fn duplicate(&self) -> (r: std::collections::HashMap<i32, i64>) {
        self.clone()
    }
}

/// A map from strings. No key occurs twice; the pairs keep the order in which their keys first
/// came.
#[derive(Debug)]
pub struct StringMap<V: View> {
    entries: Vec<(String, V)>,
}

impl<V: View> View for StringMap<V> {
    type V = Map<Seq<char>, V::V>;

    open spec fn view(&self) -> Map<Seq<char>, V::V> {
        pairs_map(self.pairs())
    }
}

impl<V: View> StringMap<V> {
    /// The keys and values, in order.
    pub closed spec fn pairs(&self) -> Seq<(Seq<char>, V::V)> {
        pair_views(self.entries@)
    }

    #[verifier::type_invariant]
    spec fn keys_are_distinct(self) -> bool {
        distinct_keys(self.pairs())
    }

    /// The map without pairs.
    pub fn new() -> (r: StringMap<V>)
        ensures
            r.pairs() == Seq::<(Seq<char>, V::V)>::empty(),
            r@ == Map::<Seq<char>, V::V>::empty(),
    {
        let r = StringMap { entries: Vec::new() };
        assert(r.pairs() =~= Seq::<(Seq<char>, V::V)>::empty());
        r
    }

    /// The number of pairs.
    pub fn len(&self) -> (r: usize)
        ensures
            r == self.pairs().len(),
            distinct_keys(self.pairs()),
    {
        proof {
            use_type_invariant(self);
        }
        self.entries.len()
    }

    /// The key of the pair at `i`.
    pub fn key_at(&self, i: usize) -> (r: &String)
        requires
            i < self.pairs().len(),
        ensures
            r@ == self.pairs()[i as int].0,
    {
        &self.entries[i].0
    }

    /// The value of the pair at `i`.
    pub fn value_at(&self, i: usize) -> (r: &V)
        requires
            i < self.pairs().len(),
        ensures
            r@ == self.pairs()[i as int].1,
    {
        &self.entries[i].1
    }

    fn find(&self, key: &str) -> (r: usize)
        ensures
            r == key_position(self.pairs(), key@),
    {
        let mut i: usize = 0;
        let ghost all = self.pairs();
        while i < self.entries.len()
            invariant
                i <= self.entries.len(),
                all == self.pairs(),
                forall|j: int| 0 <= j < i ==> (#[trigger] all[j]).0 != key@,
            decreases self.entries.len() - i,
        {
            if same_text(self.entries[i].0.as_str(), key) {
                proof {
                    lemma_key_position(all, key@);
                    assert(all[i as int].0 == key@);
                }
                return i;
            }
            assert(all[i as int].0 != key@);
            i = i + 1;
        }
        proof {
            lemma_key_position(all, key@);
        }
        i
    }

    /// The value under `key`.
    pub fn get(&self, key: &str) -> (r: Option<&V>)
        ensures
            match r {
                Some(v) => self@.contains_key(key@) && self@[key@] == v@,
                None => !self@.contains_key(key@),
            },
    {
        proof {
            use_type_invariant(self);
            lemma_pairs_map(self.pairs());
        }
        let i: usize = self.find(key);
        if i < self.entries.len() {
            Some(&self.entries[i].1)
        } else {
            None
        }
    }

    /// Whether there is a value under `key`.
    pub fn contains_key(&self, key: &str) -> (r: bool)
        ensures
            r == self@.contains_key(key@),
    {
        self.get(key).is_some()
    }

    /// Puts `value` under `key`, in the place of what was there.
    pub fn insert(&mut self, key: String, value: V)
        ensures
            final(self).pairs() == put(old(self).pairs(), key@, value@),
            final(self)@ == old(self)@.insert(key@, value@),
    {
        proof {
            use_type_invariant(&*self);
            lemma_put(self.pairs(), key@, value@);
            lemma_key_position(self.pairs(), key@);
        }
        let ghost before = self.pairs();
        let i: usize = self.find(key.as_str());
        let mut entries: Vec<(String, V)> = Vec::new();
        std::mem::swap(&mut entries, &mut self.entries);
        let ghost wanted = put(before, key@, value@);
        if i < entries.len() {
            entries.set(i, (key, value));
        } else {
            entries.push((key, value));
        }
        assert(pair_views(entries@) =~= wanted);
        self.entries = entries;
    }

    /// The map that comes of inserting `entries` one after the other.
    pub fn from_entries(entries: Vec<(String, V)>) -> (r: StringMap<V>)
        ensures
            r@ == pairs_map(pair_views(entries@)),
    {
        let ghost wanted = pair_views(entries@);
        let mut rest: Vec<(String, V)> = reversed(entries);
        let ghost all = rest@;
        let mut r: StringMap<V> = StringMap::new();
        let ghost mut k: int = 0;
        while rest.len() > 0
            invariant
                all == entries@.reverse(),
                rest@ == all.take(rest@.len() as int),
                rest@.len() + k == all.len(),
                0 <= k,
                wanted == pair_views(entries@),
                r@ == pairs_map(wanted.take(k)),
            decreases rest.len(),
        {
            let entry: (String, V) = rest.pop().unwrap();
            assert(entry == entries@[k]);
            assert(wanted.take(k + 1).drop_last() =~= wanted.take(k));
            r.insert(entry.0, entry.1);
            proof {
                k = k + 1;
            }
        }
        assert(wanted.take(k) =~= wanted);
        r
    }
}

impl<V: Duplicate> Duplicate for StringMap<V> {
    fn duplicate(&self) -> (r: StringMap<V>)
        ensures
            r.pairs() == self.pairs(),
    {
        proof {
            use_type_invariant(self);
        }
        let mut entries: Vec<(String, V)> = Vec::new();
        let mut i: usize = 0;
        while i < self.entries.len()
            invariant
                i <= self.entries.len(),
                pair_views(entries@) == self.pairs().take(i as int),
            decreases self.entries.len() - i,
        {
            let ghost before = pair_views(entries@);
            let key: String = self.entries[i].0.clone();
            let value: V = self.entries[i].1.duplicate();
            let ghost pair = (key@, value@);
            entries.push((key, value));
            assert(pair_views(entries@) =~= before.push(pair));
            assert(self.pairs().take(i + 1) =~= self.pairs().take(i as int).push(
                self.pairs()[i as int],
            ));
            i = i + 1;
        }
        assert(self.pairs().take(self.pairs().len() as int) =~= self.pairs());
        StringMap { entries }
    }
}

/// Pairs stand for their keys and values, in order.
pub proof fn law_pairs_stand_for_themselves<V: View>(entries: Seq<(String, V)>)
    ensures
        pair_views(entries).len() == entries.len(),
        forall|i: int|
            0 <= i < entries.len() ==> #[trigger] pair_views(entries)[i] == (
                entries[i].0@,
                entries[i].1@,
            ),
{
}

/// What was put under a key is found there, in the place of what was there before or behind all
/// others; all other keys keep their values and their places.
pub proof fn law_put_values_are_found<T>(pairs: Seq<(Seq<char>, T)>, key: Seq<char>, value: T)
    requires
        distinct_keys(pairs),
    ensures
        ({
            let after = put(pairs, key, value);
            &&& distinct_keys(after)
            &&& pairs_map(after).contains_key(key)
            &&& pairs_map(after)[key] == value
            &&& forall|other: Seq<char>|
                other != key ==> (#[trigger] pairs_map(after).contains_key(other)
                    <==> pairs_map(pairs).contains_key(other))
            &&& forall|other: Seq<char>| #[trigger]
                pairs_map(pairs).contains_key(other) && other != key ==> pairs_map(after)[other]
                    == pairs_map(pairs)[other]
            &&& pairs.len() <= after.len() <= pairs.len() + 1
            &&& after.len() == pairs.len() <==> exists|i: int|
                0 <= i < pairs.len() && (#[trigger] pairs[i]).0 == key
            &&& forall|i: int| 0 <= i < pairs.len() ==> (#[trigger] after[i]).0 == pairs[i].0
            &&& forall|i: int|
                0 <= i < pairs.len() && pairs[i].0 != key ==> #[trigger] after[i] == pairs[i]
        }),
{
    lemma_put(pairs, key, value);
    lemma_key_position(pairs, key);
    let p = key_position(pairs, key);
    if p < pairs.len() {
        assert(pairs[p].0 == key);
    }
}

/// Pairs with distinct keys make the map that has each value under its key, and nothing else.
pub proof fn law_pairs_make_a_map<T>(pairs: Seq<(Seq<char>, T)>)
    requires
        distinct_keys(pairs),
    ensures
        forall|i: int|
            0 <= i < pairs.len() ==> pairs_map(pairs).contains_key((#[trigger] pairs[i]).0)
                && pairs_map(pairs)[pairs[i].0] == pairs[i].1,
        forall|key: Seq<char>| #[trigger]
            pairs_map(pairs).contains_key(key) ==> exists|i: int|
                0 <= i < pairs.len() && (#[trigger] pairs[i]).0 == key,
{
    lemma_pairs_map(pairs);
    assert forall|key: Seq<char>| #[trigger] pairs_map(pairs).contains_key(key) implies exists|
        i: int,
    |
        0 <= i < pairs.len() && (#[trigger] pairs[i]).0 == key by {
        lemma_key_position(pairs, key);
        assert(pairs[key_position(pairs, key)].0 == key);
    }
}

} // verus!
