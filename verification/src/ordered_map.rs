//! A map that keeps its entries in the order of their keys.

use vstd::prelude::*;

verus! {

/// A key whose view is totally ordered.
pub trait OrderedKey: View + Sized {
    /// Whether `a` comes before `b`.
    spec fn before(a: Self::V, b: Self::V) -> bool;

    proof fn before_is_asymmetric(a: Self::V, b: Self::V)
        ensures
            !(Self::before(a, b) && Self::before(b, a)),
    ;

    proof fn before_is_transitive(a: Self::V, b: Self::V, c: Self::V)
        requires
            Self::before(a, b),
            Self::before(b, c),
        ensures
            Self::before(a, c),
    ;

    proof fn before_is_total(a: Self::V, b: Self::V)
        ensures
            a == b || Self::before(a, b) || Self::before(b, a),
    ;

    fn is_before(&self, other: &Self) -> (r: bool)
        ensures
            r == Self::before(self@, other@),
    ;
}

/// A map from keys to values. Its entries stand in the order of their keys, each key once.
#[derive(Debug)]
pub struct OrderedMap<K: OrderedKey, V> {
    entries: Vec<(K, V)>,
}

impl<K: OrderedKey, V> View for OrderedMap<K, V> {
    type V = Seq<(K, V)>;

    /// The entries, in the order of their keys.
    closed spec fn view(&self) -> Seq<(K, V)> {
        self.entries@
    }
}

/// Whether the keys of `entries` stand in order, each once.
pub open spec fn keys_increase<K: OrderedKey, V>(entries: Seq<(K, V)>) -> bool {
    forall|i: int, j: int|
        #![trigger entries[i], entries[j]]
        0 <= i < j < entries.len() ==> K::before(entries[i].0@, entries[j].0@)
}

/// Whether some entry has the key `key`.
pub open spec fn has_key<K: OrderedKey, V>(entries: Seq<(K, V)>, key: K::V) -> bool {
    exists|i: int| 0 <= i < entries.len() && (#[trigger] entries[i]).0@ == key
}

/// The position of the entry with the key `key`.
pub open spec fn position_of<K: OrderedKey, V>(entries: Seq<(K, V)>, key: K::V) -> int {
    choose|i: int| 0 <= i < entries.len() && (#[trigger] entries[i]).0@ == key
}

/// The value under `key`, if there is one.
pub open spec fn value_of<K: OrderedKey, V>(entries: Seq<(K, V)>, key: K::V) -> Option<V> {
    if has_key(entries, key) {
        Some(entries[position_of(entries, key)].1)
    } else {
        None
    }
}

impl<K: OrderedKey + Clone, V: Clone> Clone for OrderedMap<K, V> {
    fn clone(&self) -> (r: Self)
        ensures
            r@.len() == self@.len(),
            forall|i: int|
                #![trigger r@[i]]
                0 <= i < r@.len() ==> cloned(self@[i].0, r@[i].0) && cloned(self@[i].1, r@[i].1),
    {
        let mut entries: Vec<(K, V)> = Vec::new();
        let mut i: usize = 0;
        while i < self.entries.len()
            invariant
                i <= self.entries@.len(),
                entries@.len() == i,
                forall|j: int|
                    #![trigger entries@[j]]
                    0 <= j < i ==> cloned(self.entries@[j].0, entries@[j].0) && cloned(
                        self.entries@[j].1,
                        entries@[j].1,
                    ),
            decreases self.entries@.len() - i,
        {
            let key = self.entries[i].0.clone();
            let value = self.entries[i].1.clone();
            entries.push((key, value));
            i = i + 1;
        }
        OrderedMap { entries }
    }
}

/// `entries` without the entry under `key`.
pub open spec fn without<K: OrderedKey, V>(entries: Seq<(K, V)>, key: K::V) -> Seq<(K, V)> {
    if has_key(entries, key) {
        entries.remove(position_of(entries, key))
    } else {
        entries
    }
}

/// An entry is found at its own position: keys occur once.
pub proof fn lemma_position<K: OrderedKey, V>(entries: Seq<(K, V)>, i: int)
    requires
        keys_increase(entries),
        0 <= i < entries.len(),
    ensures
        has_key(entries, entries[i].0@),
        position_of(entries, entries[i].0@) == i,
        value_of(entries, entries[i].0@) == Some(entries[i].1),
{
    let key = entries[i].0@;
    let p = position_of(entries, key);
    assert(entries[i].0@ == key);
    assert(0 <= p < entries.len() && entries[p].0@ == key);
    if p != i {
        K::before_is_asymmetric(key, key);
    }
}

/// Where every entry before `i` comes before `key` and every entry from `i` on comes after it,
/// `key` has no entry.
proof fn lemma_absent<K: OrderedKey, V>(entries: Seq<(K, V)>, key: K::V, i: int)
    requires
        0 <= i <= entries.len(),
        forall|j: int| 0 <= j < i ==> K::before((#[trigger] entries[j]).0@, key),
        forall|j: int| i <= j < entries.len() ==> K::before(key, (#[trigger] entries[j]).0@),
    ensures
        !has_key(entries, key),
{
    K::before_is_asymmetric(key, key);
}

/// Removing an entry keeps the order.
pub proof fn lemma_remove<K: OrderedKey, V>(entries: Seq<(K, V)>, i: int)
    requires
        keys_increase(entries),
        0 <= i < entries.len(),
    ensures
        keys_increase(entries.remove(i)),
        !has_key(entries.remove(i), entries[i].0@),
{
    let rest = entries.remove(i);
    assert forall|a: int, b: int|
        #![trigger rest[a], rest[b]]
        0 <= a < b < rest.len() implies K::before(rest[a].0@, rest[b].0@) by {
        let a0 = if a < i { a } else { a + 1 };
        let b0 = if b < i { b } else { b + 1 };
        assert(rest[a] == entries[a0] && rest[b] == entries[b0]);
    }
    assert forall|j: int| 0 <= j < i implies K::before((#[trigger] rest[j]).0@, entries[i].0@) by {
        assert(rest[j] == entries[j]);
    }
    assert forall|j: int| i <= j < rest.len() implies K::before(
        entries[i].0@,
        (#[trigger] rest[j]).0@,
    ) by {
        assert(rest[j] == entries[j + 1]);
    }
    lemma_absent(rest, entries[i].0@, i);
}

/// Replacing the value of an entry keeps the order.
pub proof fn lemma_update<K: OrderedKey, V>(entries: Seq<(K, V)>, i: int, value: V)
    requires
        keys_increase(entries),
        0 <= i < entries.len(),
    ensures
        keys_increase(entries.update(i, (entries[i].0, value))),
{
    let changed = entries.update(i, (entries[i].0, value));
    assert forall|a: int, b: int|
        #![trigger changed[a], changed[b]]
        0 <= a < b < changed.len() implies K::before(changed[a].0@, changed[b].0@) by {
        assert(changed[a].0 == entries[a].0 && changed[b].0 == entries[b].0);
    }
}

impl<K: OrderedKey, V> OrderedMap<K, V> {
    /// What every map keeps: its keys stand in order.
    pub open spec fn wf(&self) -> bool {
        keys_increase(self@)
    }

    pub fn new() -> (r: Self)
        ensures
            r.wf(),
            r@ == Seq::<(K, V)>::empty(),
    {
        OrderedMap { entries: Vec::new() }
    }

    pub fn len(&self) -> (r: usize)
        ensures
            r == self@.len(),
    {
        self.entries.len()
    }

    pub fn key_at(&self, i: usize) -> (r: &K)
        requires
            i < self@.len(),
        ensures
            *r == self@[i as int].0,
    {
        &self.entries[i].0
    }

    pub fn value_at(&self, i: usize) -> (r: &V)
        requires
            i < self@.len(),
        ensures
            *r == self@[i as int].1,
    {
        &self.entries[i].1
    }

    /// The value at a position, to be changed in place.
    pub fn value_at_mut(&mut self, i: usize) -> (r: &mut V)
        requires
            i < old(self)@.len(),
        ensures
            *r == old(self)@[i as int].1,
            final(self)@ == old(self)@.update(i as int, (old(self)@[i as int].0, *final(r))),
    {
        &mut self.entries[i].1
    }

    /// The first position whose key does not come before `key`.
    fn lower_bound(&self, key: &K) -> (r: usize)
        requires
            self.wf(),
        ensures
            r <= self@.len(),
            forall|j: int| 0 <= j < r ==> K::before((#[trigger] self@[j]).0@, key@),
            forall|j: int| r <= j < self@.len() ==> !K::before((#[trigger] self@[j]).0@, key@),
    {
        let mut low: usize = 0;
        let mut high: usize = self.entries.len();
        while low < high
            invariant
                self.wf(),
                low <= high <= self@.len(),
                forall|j: int| 0 <= j < low ==> K::before((#[trigger] self@[j]).0@, key@),
                forall|j: int|
                    high <= j < self@.len() ==> !K::before((#[trigger] self@[j]).0@, key@),
            decreases high - low,
        {
            let middle: usize = low + (high - low) / 2;
            let ghost pivot = self@[middle as int].0@;
            if self.entries[middle].0.is_before(key) {
                proof {
                    assert forall|j: int| 0 <= j < middle + 1 implies K::before(
                        (#[trigger] self@[j]).0@,
                        key@,
                    ) by {
                        if j < middle {
                            K::before_is_transitive(self@[j].0@, pivot, key@);
                        }
                    }
                }
                low = middle + 1;
            } else {
                proof {
                    assert forall|j: int| middle <= j < self@.len() implies !K::before(
                        (#[trigger] self@[j]).0@,
                        key@,
                    ) by {
                        if middle < j && K::before(self@[j].0@, key@) {
                            K::before_is_transitive(pivot, self@[j].0@, key@);
                        }
                    }
                }
                high = middle;
            }
        }
        low
    }

    /// The position of the entry under `key`.
    pub fn find(&self, key: &K) -> (r: Option<usize>)
        requires
            self.wf(),
        ensures
            r is Some <==> has_key(self@, key@),
            r matches Some(i) ==> i < self@.len() && self@[i as int].0@ == key@ && i
                == position_of(self@, key@),
    {
        let i: usize = self.lower_bound(key);
        if i < self.entries.len() && !key.is_before(&self.entries[i].0) {
            proof {
                K::before_is_total(self@[i as int].0@, key@);
                lemma_position(self@, i as int);
            }
            Some(i)
        } else {
            proof {
                self.lemma_gap(key@, i as int);
            }
            None
        }
    }

    /// Where the entry at the lower bound is not the key's own, the key has none.
    proof fn lemma_gap(&self, key: K::V, i: int)
        requires
            self.wf(),
            0 <= i <= self@.len(),
            forall|j: int| 0 <= j < i ==> K::before((#[trigger] self@[j]).0@, key),
            i < self@.len() ==> K::before(key, self@[i].0@),
        ensures
            forall|j: int| i <= j < self@.len() ==> K::before(key, (#[trigger] self@[j]).0@),
            !has_key(self@, key),
    {
        assert forall|j: int| i <= j < self@.len() implies K::before(
            key,
            (#[trigger] self@[j]).0@,
        ) by {
            if i < j {
                K::before_is_transitive(key, self@[i].0@, self@[j].0@);
            }
        }
        lemma_absent(self@, key, i);
    }

    /// The value under `key`.
    pub fn get(&self, key: &K) -> (r: Option<&V>)
        requires
            self.wf(),
        ensures
            match r {
                Some(value) => value_of(self@, key@) == Some(*value),
                None => value_of(self@, key@) is None,
            },
    {
        match self.find(key) {
            Some(i) => Some(&self.entries[i].1),
            None => None,
        }
    }

    /// Puts `value` under `key`. Where the key is there already, it keeps its place and the value
    /// it had is handed back.
    pub fn insert(&mut self, key: K, value: V) -> (r: Option<V>)
        requires
            old(self).wf(),
        ensures
            final(self).wf(),
            r == value_of(old(self)@, key@),
            inserted(old(self)@, key, value, final(self)@),
    {
        let i: usize = self.lower_bound(&key);
        if i < self.entries.len() && !key.is_before(&self.entries[i].0) {
            proof {
                K::before_is_total(self@[i as int].0@, key@);
                lemma_position(self@, i as int);
                lemma_update(self@, i as int, value);
            }
            let mut value = value;
            std::mem::swap(&mut self.entries[i].1, &mut value);
            Some(value)
        } else {
            proof {
                self.lemma_gap(key@, i as int);
                lemma_insert(self@, i as int, key, value);
            }
            self.entries.insert(i, (key, value));
            None
        }
    }

    /// Takes out the entry at a position.
    pub fn remove_at(&mut self, i: usize) -> (r: (K, V))
        requires
            old(self).wf(),
            i < old(self)@.len(),
        ensures
            final(self).wf(),
            r == old(self)@[i as int],
            final(self)@ == old(self)@.remove(i as int),
    {
        proof {
            lemma_remove(self@, i as int);
        }
        self.entries.remove(i)
    }

    /// Takes out the entry under `key`.
    pub fn remove(&mut self, key: &K) -> (r: Option<V>)
        requires
            old(self).wf(),
        ensures
            final(self).wf(),
            r == value_of(old(self)@, key@),
            final(self)@ == without(old(self)@, key@),
    {
        match self.find(key) {
            Some(i) => {
                let (_, value) = self.remove_at(i);
                Some(value)
            },
            None => None,
        }
    }

    pub fn clear(&mut self)
        ensures
            final(self).wf(),
            final(self)@ == Seq::<(K, V)>::empty(),
    {
        self.entries.clear();
    }
}

/// `after` is `before` with `value` under `key`: in the place of the value that the key had, or in
/// a new entry at the place that the order gives it.
pub open spec fn inserted<K: OrderedKey, V>(
    before: Seq<(K, V)>,
    key: K,
    value: V,
    after: Seq<(K, V)>,
) -> bool {
    if has_key(before, key@) {
        let i = position_of(before, key@);
        after == before.update(i, (before[i].0, value))
    } else {
        exists|i: int|
            0 <= i <= before.len() && after == #[trigger] before.insert(i, (key, value))
    }
}

proof fn lemma_insert<K: OrderedKey, V>(entries: Seq<(K, V)>, i: int, key: K, value: V)
    requires
        keys_increase(entries),
        0 <= i <= entries.len(),
        forall|j: int| 0 <= j < i ==> K::before((#[trigger] entries[j]).0@, key@),
        forall|j: int| i <= j < entries.len() ==> K::before(key@, (#[trigger] entries[j]).0@),
    ensures
        keys_increase(entries.insert(i, (key, value))),
{
    let more = entries.insert(i, (key, value));
    assert forall|a: int, b: int|
        #![trigger more[a], more[b]]
        0 <= a < b < more.len() implies K::before(more[a].0@, more[b].0@) by {
        let a0 = if a < i { a } else { a - 1 };
        let b0 = if b < i { b } else { b - 1 };
        assert(a != i ==> more[a] == entries[a0]);
        assert(b != i ==> more[b] == entries[b0]);
    }
}

/// After an insertion the key holds the value and every other key what it held before.
pub proof fn insertion_changes_one_key<K: OrderedKey, V>(
    before: Seq<(K, V)>,
    key: K,
    value: V,
    after: Seq<(K, V)>,
    other: K::V,
)
    requires
        keys_increase(before),
        keys_increase(after),
        inserted(before, key, value, after),
    ensures
        value_of(after, key@) == Some(value),
        other != key@ ==> value_of(after, other) == value_of(before, other),
{
    if has_key(before, key@) {
        let i = position_of(before, key@);
        assert(before[i].0@ == key@);
        lemma_position(after, i);
        if other != key@ {
            if has_key(before, other) {
                let j = position_of(before, other);
                assert(before[j].0@ == other);
                assert(after[j] == before[j]);
                lemma_position(after, j);
            }
            if has_key(after, other) {
                let j = position_of(after, other);
                assert(after[j].0@ == other);
                assert(before[j].0@ == other);
            }
        }
    } else {
        let i = choose|i: int|
            0 <= i <= before.len() && after == #[trigger] before.insert(i, (key, value));
        assert(after[i] == (key, value));
        lemma_position(after, i);
        if other != key@ {
            if has_key(before, other) {
                let j = position_of(before, other);
                assert(before[j].0@ == other);
                let j2 = if j < i { j } else { j + 1 };
                assert(after[j2] == before[j]);
                lemma_position(after, j2);
            }
            if has_key(after, other) {
                let j = position_of(after, other);
                assert(after[j].0@ == other);
                let j0 = if j < i { j } else { j - 1 };
                assert(before[j0].0@ == other);
            }
        }
    }
}

/// After a removal the key is gone and every other key holds what it held before.
pub proof fn removal_changes_one_key<K: OrderedKey, V>(
    entries: Seq<(K, V)>,
    key: K::V,
    other: K::V,
)
    requires
        keys_increase(entries),
    ensures
        value_of(without(entries, key), key) is None,
        other != key ==> value_of(without(entries, key), other) == value_of(entries, other),
{
    if has_key(entries, key) {
        let i = position_of(entries, key);
        assert(entries[i].0@ == key);
        lemma_remove(entries, i);
        let rest = entries.remove(i);
        if other != key {
            if has_key(entries, other) {
                let j = position_of(entries, other);
                assert(entries[j].0@ == other);
                let j2 = if j < i { j } else { j - 1 };
                assert(rest[j2] == entries[j]);
                lemma_position(rest, j2);
            }
            if has_key(rest, other) {
                let j = position_of(rest, other);
                assert(rest[j].0@ == other);
                let j0 = if j < i { j } else { j + 1 };
                assert(entries[j0].0@ == other);
            }
        }
    }
}

/// How many items all entries hold together.
pub open spec fn item_count<K: OrderedKey, T>(entries: Seq<(K, Vec<T>)>) -> nat
    decreases entries.len(),
{
    if entries.len() == 0 {
        0
    } else {
        item_count(entries.drop_last()) + entries.last().1@.len()
    }
}

/// The first entries hold no more items than all of them.
pub proof fn lemma_count_of_prefix<K: OrderedKey, T>(entries: Seq<(K, Vec<T>)>, n: int)
    requires
        0 <= n <= entries.len(),
    ensures
        item_count(entries.take(n)) <= item_count(entries),
    decreases entries.len(),
{
    if n == entries.len() {
        assert(entries.take(n) =~= entries);
    } else {
        lemma_count_of_prefix(entries.drop_last(), n);
        assert(entries.drop_last().take(n) =~= entries.take(n));
    }
}

proof fn lemma_count_of_remove<K: OrderedKey, T>(entries: Seq<(K, Vec<T>)>, i: int)
    requires
        0 <= i < entries.len(),
    ensures
        item_count(entries.remove(i)) + entries[i].1@.len() == item_count(entries),
    decreases entries.len(),
{
    if i == entries.len() - 1 {
        assert(entries.remove(i) =~= entries.drop_last());
    } else {
        lemma_count_of_remove(entries.drop_last(), i);
        assert(entries.remove(i).drop_last() =~= entries.drop_last().remove(i));
    }
}

/// A new entry adds its items.
pub proof fn lemma_count_of_insert<K: OrderedKey, T>(
    entries: Seq<(K, Vec<T>)>,
    i: int,
    entry: (K, Vec<T>),
)
    requires
        0 <= i <= entries.len(),
    ensures
        item_count(entries.insert(i, entry)) == item_count(entries) + entry.1@.len(),
{
    let more = entries.insert(i, entry);
    lemma_count_of_remove(more, i);
    assert(more.remove(i) =~= entries);
}

/// An entry in the place of another has its items in the place of the other's.
pub proof fn lemma_count_of_update<K: OrderedKey, T>(
    entries: Seq<(K, Vec<T>)>,
    i: int,
    entry: (K, Vec<T>),
)
    requires
        0 <= i < entries.len(),
    ensures
        item_count(entries.update(i, entry)) + entries[i].1@.len() == item_count(entries)
            + entry.1@.len(),
{
    let changed = entries.update(i, entry);
    lemma_count_of_remove(changed, i);
    lemma_count_of_remove(entries, i);
    assert(changed.remove(i) =~= entries.remove(i));
}

/// Items are counted entry by entry: none in no entries, and the items of two lots of entries
/// together are those of the one and those of the other.
pub proof fn item_counts_add_up<K: OrderedKey, T>(
    some: Seq<(K, Vec<T>)>,
    more: Seq<(K, Vec<T>)>,
)
    ensures
        item_count(Seq::<(K, Vec<T>)>::empty()) == 0,
        more.len() == 1 ==> item_count(more) == more[0].1@.len(),
        item_count(some + more) == item_count(some) + item_count(more),
    decreases more.len(),
{
    if more.len() == 0 {
        assert(some + more =~= some);
    } else {
        item_counts_add_up(some, more.drop_last());
        assert((some + more).drop_last() =~= some + more.drop_last());
        assert((some + more).last() == more.last());
        if more.len() == 1 {
            assert(more.drop_last() =~= Seq::<(K, Vec<T>)>::empty());
        }
    }
}

} // verus!
