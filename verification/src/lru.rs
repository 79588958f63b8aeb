//! Eviction of the least recently touched entries of a weighed, ordered map.

use crate::ordered_map;
use crate::ordered_map::{OrderedKey, OrderedMap};
use vstd::prelude::*;

verus! {

/// An entry that knows the time of its last use.
pub trait Touched {
    spec fn touched(&self) -> u64;

    fn last_touched(&self) -> (r: u64)
        ensures
            r == self.touched(),
    ;
}

/// An entry with a weight of its own.
pub trait Weighed: Touched {
    spec fn weight(&self) -> u64;

    fn current_weight(&self) -> (r: u64)
        ensures
            r == self.weight(),
    ;
}

/// The tick after `clock`. It is never zero: after the last one it starts again at one.
pub open spec fn next_tick(clock: u64) -> u64 {
    if clock == u64::MAX {
        1
    } else {
        (clock + 1) as u64
    }
}

pub fn tick(clock: u64) -> (r: u64)
    ensures
        r == next_tick(clock),
{
    if clock == u64::MAX {
        1
    } else {
        clock + 1
    }
}

/// What a counter shows after `more` further events: it stops at its maximum.
pub open spec fn counted(counter: u64, more: int) -> u64 {
    if counter + more > u64::MAX {
        u64::MAX
    } else {
        (counter + more) as u64
    }
}

/// The weight of all entries together.
pub open spec fn total_weight<K: OrderedKey, V: Weighed>(entries: Seq<(K, V)>) -> nat
    decreases entries.len(),
{
    if entries.len() == 0 {
        0
    } else {
        total_weight(entries.drop_last()) + entries.last().1.weight() as nat
    }
}

pub proof fn lemma_weight_of_remove<K: OrderedKey, V: Weighed>(entries: Seq<(K, V)>, i: int)
    requires
        0 <= i < entries.len(),
    ensures
        total_weight(entries.remove(i)) + entries[i].1.weight() == total_weight(entries),
    decreases entries.len(),
{
    if i == entries.len() - 1 {
        assert(entries.remove(i) =~= entries.drop_last());
    } else {
        lemma_weight_of_remove(entries.drop_last(), i);
        assert(entries.remove(i).drop_last() =~= entries.drop_last().remove(i));
    }
}

pub proof fn lemma_weight_of_insert<K: OrderedKey, V: Weighed>(
    entries: Seq<(K, V)>,
    i: int,
    entry: (K, V),
)
    requires
        0 <= i <= entries.len(),
    ensures
        total_weight(entries.insert(i, entry)) == total_weight(entries) + entry.1.weight(),
{
    let more = entries.insert(i, entry);
    lemma_weight_of_remove(more, i);
    assert(more.remove(i) =~= entries);
}

pub proof fn lemma_weight_of_update<K: OrderedKey, V: Weighed>(
    entries: Seq<(K, V)>,
    i: int,
    entry: (K, V),
)
    requires
        0 <= i < entries.len(),
    ensures
        total_weight(entries.update(i, entry)) + entries[i].1.weight() == total_weight(entries)
            + entry.1.weight(),
{
    let changed = entries.update(i, entry);
    lemma_weight_of_remove(changed, i);
    lemma_weight_of_remove(entries, i);
    assert(changed.remove(i) =~= entries.remove(i));
}

/// Whether the entry at `i` may be evicted while `protected` is in use.
pub open spec fn is_evictable<K: OrderedKey, V: Touched>(
    entries: Seq<(K, V)>,
    protected: Option<K::V>,
    i: int,
) -> bool {
    0 <= i < entries.len() && protected != Some(entries[i].0@)
}

/// Whether the entry at `i` is the next to be evicted: of those that may be, the one touched
/// longest ago, and of several touched at that time the one with the first key.
pub open spec fn is_victim<K: OrderedKey, V: Touched>(
    entries: Seq<(K, V)>,
    protected: Option<K::V>,
    i: int,
) -> bool {
    &&& is_evictable(entries, protected, i)
    &&& forall|j: int|
        #![trigger entries[j]]
        is_evictable(entries, protected, j) ==> entries[i].1.touched() <= entries[j].1.touched()
            && (j < i ==> entries[i].1.touched() < entries[j].1.touched())
}

/// Whether `additional` more fits beside `entries`.
pub open spec fn fits<K: OrderedKey, V: Weighed>(
    entries: Seq<(K, V)>,
    additional: u64,
    capacity: u64,
) -> bool {
    total_weight(entries) + additional <= capacity
}

/// What is left of `entries` once victims have been evicted one by one until `additional` more
/// fits, or nothing more may be evicted.
pub open spec fn evicted<K: OrderedKey, V: Weighed>(
    entries: Seq<(K, V)>,
    protected: Option<K::V>,
    additional: u64,
    capacity: u64,
) -> Seq<(K, V)>
    decreases entries.len(),
{
    if fits(entries, additional, capacity) || !(exists|i: int| is_victim(entries, protected, i)) {
        entries
    } else {
        let i = choose|i: int| is_victim(entries, protected, i);
        evicted(entries.remove(i), protected, additional, capacity)
    }
}

/// There is at most one victim at a time.
pub proof fn lemma_victim_is_unique<K: OrderedKey, V: Touched>(
    entries: Seq<(K, V)>,
    protected: Option<K::V>,
    i: int,
    j: int,
)
    requires
        is_victim(entries, protected, i),
        is_victim(entries, protected, j),
    ensures
        i == j,
{
    let a = entries[i];
    let b = entries[j];
}

/// One round of eviction.
proof fn lemma_evict_one<K: OrderedKey, V: Weighed>(
    entries: Seq<(K, V)>,
    protected: Option<K::V>,
    additional: u64,
    capacity: u64,
    i: int,
)
    requires
        !fits(entries, additional, capacity),
        is_victim(entries, protected, i),
    ensures
        evicted(entries, protected, additional, capacity) == evicted(
            entries.remove(i),
            protected,
            additional,
            capacity,
        ),
{
    let c = choose|i: int| is_victim(entries, protected, i);
    lemma_victim_is_unique(entries, protected, i, c);
}

/// Eviction keeps the order of the keys and takes nothing where everything fits already.
pub proof fn eviction_keeps_order<K: OrderedKey, V: Weighed>(
    entries: Seq<(K, V)>,
    protected: Option<K::V>,
    additional: u64,
    capacity: u64,
)
    requires
        ordered_map::keys_increase(entries),
    ensures
        ordered_map::keys_increase(evicted(entries, protected, additional, capacity)),
        fits(entries, additional, capacity) ==> evicted(entries, protected, additional, capacity)
            == entries,
        evicted(entries, protected, additional, capacity).len() <= entries.len(),
    decreases entries.len(),
{
    if !fits(entries, additional, capacity) && exists|i: int| is_victim(entries, protected, i) {
        let i = choose|i: int| is_victim(entries, protected, i);
        ordered_map::lemma_remove(entries, i);
        eviction_keeps_order(entries.remove(i), protected, additional, capacity);
    }
}

/// What stays weighs no more than what was there.
pub proof fn eviction_weighs_no_more<K: OrderedKey, V: Weighed>(
    entries: Seq<(K, V)>,
    protected: Option<K::V>,
    additional: u64,
    capacity: u64,
)
    ensures
        total_weight(evicted(entries, protected, additional, capacity)) <= total_weight(entries),
    decreases entries.len(),
{
    if !fits(entries, additional, capacity) && exists|i: int| is_victim(entries, protected, i) {
        let i = choose|i: int| is_victim(entries, protected, i);
        lemma_weight_of_remove(entries, i);
        eviction_weighs_no_more(entries.remove(i), protected, additional, capacity);
    }
}

/// Every entry that eviction keeps was there before.
pub proof fn eviction_keeps_members<K: OrderedKey, V: Weighed>(
    entries: Seq<(K, V)>,
    protected: Option<K::V>,
    additional: u64,
    capacity: u64,
    i: int,
)
    requires
        0 <= i < evicted(entries, protected, additional, capacity).len(),
    ensures
        entries.contains(evicted(entries, protected, additional, capacity)[i]),
    decreases entries.len(),
{
    if !fits(entries, additional, capacity) && exists|i: int| is_victim(entries, protected, i) {
        let v = choose|i: int| is_victim(entries, protected, i);
        let rest = entries.remove(v);
        eviction_keeps_members(rest, protected, additional, capacity, i);
        let kept = evicted(rest, protected, additional, capacity)[i];
        let j = choose|j: int| 0 <= j < rest.len() && rest[j] == kept;
        assert(entries[if j < v { j } else { j + 1 }] == kept);
    }
}

/// Every entry that eviction keeps holds what it held before.
pub proof fn eviction_only_removes<K: OrderedKey, V: Weighed>(
    entries: Seq<(K, V)>,
    protected: Option<K::V>,
    additional: u64,
    capacity: u64,
    key: K::V,
)
    requires
        ordered_map::keys_increase(entries),
        ordered_map::has_key(evicted(entries, protected, additional, capacity), key),
    ensures
        ordered_map::has_key(entries, key),
        ordered_map::value_of(evicted(entries, protected, additional, capacity), key)
            == ordered_map::value_of(entries, key),
    decreases entries.len(),
{
    if !fits(entries, additional, capacity) && exists|i: int| is_victim(entries, protected, i) {
        let i = choose|i: int| is_victim(entries, protected, i);
        ordered_map::lemma_remove(entries, i);
        let rest = entries.remove(i);
        eviction_only_removes(rest, protected, additional, capacity, key);
        ordered_map::lemma_position(entries, i);
        assert(ordered_map::without(entries, entries[i].0@) == rest);
        ordered_map::removal_changes_one_key(entries, entries[i].0@, key);
    }
}

/// The protected entry stays.
pub proof fn eviction_spares_the_protected<K: OrderedKey, V: Weighed>(
    entries: Seq<(K, V)>,
    protected: K::V,
    additional: u64,
    capacity: u64,
)
    requires
        ordered_map::keys_increase(entries),
        ordered_map::has_key(entries, protected),
    ensures
        ordered_map::has_key(evicted(entries, Some(protected), additional, capacity), protected),
        ordered_map::value_of(evicted(entries, Some(protected), additional, capacity), protected)
            == ordered_map::value_of(entries, protected),
    decreases entries.len(),
{
    if !fits(entries, additional, capacity) && exists|i: int|
        is_victim(entries, Some(protected), i) {
        let i = choose|i: int| is_victim(entries, Some(protected), i);
        ordered_map::lemma_remove(entries, i);
        ordered_map::lemma_position(entries, i);
        assert(ordered_map::without(entries, entries[i].0@) == entries.remove(i));
        ordered_map::removal_changes_one_key(entries, entries[i].0@, protected);
        eviction_spares_the_protected(entries.remove(i), protected, additional, capacity);
    }
}

/// Least recently used first: no entry that went was touched after one that stayed, but for the
/// protected one.
pub proof fn eviction_takes_the_least_recent<K: OrderedKey, V: Weighed>(
    entries: Seq<(K, V)>,
    protected: Option<K::V>,
    additional: u64,
    capacity: u64,
    gone: K::V,
    kept: K::V,
)
    requires
        ordered_map::keys_increase(entries),
        ordered_map::has_key(entries, gone),
        !ordered_map::has_key(evicted(entries, protected, additional, capacity), gone),
        ordered_map::has_key(evicted(entries, protected, additional, capacity), kept),
        protected != Some(kept),
    ensures
        ordered_map::value_of(entries, gone)->0.touched() <= ordered_map::value_of(
            entries,
            kept,
        )->0.touched(),
    decreases entries.len(),
{
    if !fits(entries, additional, capacity) && exists|i: int| is_victim(entries, protected, i) {
        let i = choose|i: int| is_victim(entries, protected, i);
        let rest = entries.remove(i);
        ordered_map::lemma_remove(entries, i);
        ordered_map::lemma_position(entries, i);
        let victim = entries[i].0@;
        assert(ordered_map::without(entries, victim) == rest);
        eviction_only_removes(rest, protected, additional, capacity, kept);
        ordered_map::removal_changes_one_key(entries, victim, kept);
        ordered_map::removal_changes_one_key(entries, victim, gone);
        if victim == gone {
            let p = ordered_map::position_of(entries, kept);
            assert(entries[p].0@ == kept);
            assert(is_evictable(entries, protected, p));
        } else {
            eviction_takes_the_least_recent(rest, protected, additional, capacity, gone, kept);
        }
    }
}

/// Where what is protected and what is to come fit together, eviction makes them fit.
pub proof fn eviction_makes_room<K: OrderedKey, V: Weighed>(
    entries: Seq<(K, V)>,
    protected: Option<K::V>,
    additional: u64,
    capacity: u64,
)
    requires
        ordered_map::keys_increase(entries),
        match protected {
            Some(key) => match ordered_map::value_of(entries, key) {
                Some(value) => value.weight() + additional <= capacity,
                None => additional <= capacity,
            },
            None => additional <= capacity,
        },
    ensures
        fits(evicted(entries, protected, additional, capacity), additional, capacity),
    decreases entries.len(),
{
    if !fits(entries, additional, capacity) {
        if exists|i: int| is_victim(entries, protected, i) {
            let i = choose|i: int| is_victim(entries, protected, i);
            ordered_map::lemma_remove(entries, i);
            ordered_map::lemma_position(entries, i);
            assert(ordered_map::without(entries, entries[i].0@) == entries.remove(i));
            if protected is Some {
                ordered_map::removal_changes_one_key(entries, entries[i].0@, protected->0);
            }
            eviction_makes_room(entries.remove(i), protected, additional, capacity);
        } else {
            lemma_no_victim(entries, protected);
            if entries.len() == 0 {
            } else {
                assert(!is_evictable(entries, protected, 0));
                ordered_map::lemma_position(entries, 0);
                if entries.len() > 1 {
                    assert(!is_evictable(entries, protected, 1));
                    ordered_map::lemma_position(entries, 1);
                }
                assert(entries.drop_last() =~= Seq::<(K, V)>::empty());
                assert(total_weight(entries) == entries[0].1.weight()) by {
                    reveal_with_fuel(total_weight, 2);
                }
            }
        }
    }
}

/// Without a victim there is nothing to evict.
pub proof fn lemma_no_victim<K: OrderedKey, V: Touched>(
    entries: Seq<(K, V)>,
    protected: Option<K::V>,
)
    requires
        !(exists|i: int| is_victim(entries, protected, i)),
    ensures
        forall|i: int| !is_evictable(entries, protected, i),
{
    if exists|i: int| is_evictable(entries, protected, i) {
        let i = choose|i: int| is_evictable(entries, protected, i);
        let v = lemma_find_victim(entries, protected, i, entries.len() as int);
        assert(is_victim(entries, protected, v));
    }
}

/// Among the first `n` entries, the one that is touched longest ago.
proof fn lemma_find_victim<K: OrderedKey, V: Touched>(
    entries: Seq<(K, V)>,
    protected: Option<K::V>,
    i: int,
    n: int,
) -> (v: int)
    requires
        is_evictable(entries, protected, i),
        i < n <= entries.len(),
    ensures
        is_evictable(entries, protected, v),
        forall|j: int|
            #![trigger entries[j]]
            j < n && is_evictable(entries, protected, j) ==> entries[v].1.touched()
                <= entries[j].1.touched() && (j < v ==> entries[v].1.touched()
                < entries[j].1.touched()),
        v < n,
    decreases n,
{
    let last = n - 1;
    if exists|k: int| k < last && is_evictable(entries, protected, k) {
        let k = choose|k: int| k < last && is_evictable(entries, protected, k);
        let w = lemma_find_victim(entries, protected, k, last);
        if is_evictable(entries, protected, last) && entries[last].1.touched()
            < entries[w].1.touched() {
            last
        } else {
            w
        }
    } else {
        assert(i == last);
        last
    }
}

/// The position of the next victim.
pub fn find_victim<K: OrderedKey, V: Touched>(
    entries: &OrderedMap<K, V>,
    protected: &Option<K>,
) -> (r: Option<usize>)
    requires
        entries.wf(),
    ensures
        match r {
            Some(i) => is_victim(entries@, protected_view(*protected), i as int),
            None => forall|i: int| !is_evictable(entries@, protected_view(*protected), i),
        },
{
    let ghost pv = protected_view(*protected);
    let mut best: Option<usize> = None;
    let mut i: usize = 0;
    while i < entries.len()
        invariant
            entries.wf(),
            i <= entries@.len(),
            pv == protected_view(*protected),
            match best {
                Some(b) => {
                    &&& b < i
                    &&& is_evictable(entries@, pv, b as int)
                    &&& forall|j: int|
                        #![trigger entries@[j]]
                        j < i && is_evictable(entries@, pv, j) ==> entries@[b as int].1.touched()
                            <= entries@[j].1.touched() && (j < b ==> entries@[b as int].1.touched()
                            < entries@[j].1.touched())
                },
                None => forall|j: int| j < i ==> !is_evictable(entries@, pv, j),
            },
        decreases entries@.len() - i,
    {
        let evictable: bool = match protected {
            Some(key) => {
                let other = entries.key_at(i);
                let differs = other.is_before(key) || key.is_before(other);
                proof {
                    K::before_is_total(other@, key@);
                    K::before_is_asymmetric(key@, key@);
                }
                differs
            },
            None => true,
        };
        assert(evictable == is_evictable(entries@, pv, i as int));
        if evictable {
            let sooner: bool = match best {
                Some(b) => entries.value_at(i).last_touched() < entries.value_at(b).last_touched(),
                None => true,
            };
            if sooner {
                best = Some(i);
            }
        }
        i = i + 1;
    }
    best
}

/// The key that is in use, if there is one.
pub open spec fn protected_view<K: OrderedKey>(protected: Option<K>) -> Option<K::V> {
    match protected {
        Some(key) => Some(key@),
        None => None,
    }
}

/// What eviction left: the weight of what stayed, the counter of evictions, and whether there is
/// room now.
pub struct Evicted {
    pub weight: u64,
    pub evictions: u64,
    pub fits: bool,
}

/// Evicts victims until `additional` more fits or nothing more may be evicted.
pub fn evict<K: OrderedKey, V: Weighed>(
    entries: &mut OrderedMap<K, V>,
    weight: u64,
    evictions: u64,
    protected: Option<K>,
    additional: u64,
    capacity: u64,
) -> (r: Evicted)
    requires
        old(entries).wf(),
        weight == total_weight(old(entries)@),
    ensures
        final(entries).wf(),
        final(entries)@ == evicted(old(entries)@, protected_view(protected), additional, capacity),
        r.weight == total_weight(final(entries)@),
        r.evictions == counted(evictions, old(entries)@.len() - final(entries)@.len()),
        r.fits == fits(final(entries)@, additional, capacity),
{
    let ghost pv = protected_view(protected);
    let ghost before = entries@;
    let mut weight: u64 = weight;
    let mut count: u64 = evictions;
    while additional > capacity || weight > capacity - additional
        invariant
            entries.wf(),
            pv == protected_view(protected),
            before == old(entries)@,
            weight == total_weight(entries@),
            entries@.len() <= before.len(),
            count == counted(evictions, before.len() - entries@.len()),
            evicted(before, pv, additional, capacity) == evicted(
                entries@,
                pv,
                additional,
                capacity,
            ),
        decreases entries@.len(),
    {
        match find_victim(entries, &protected) {
            Some(i) => {
                proof {
                    lemma_evict_one(entries@, pv, additional, capacity, i as int);
                    lemma_weight_of_remove(entries@, i as int);
                }
                let (_, removed) = entries.remove_at(i);
                weight = weight - removed.current_weight();
                count = count.saturating_add(1);
            },
            None => {
                return Evicted { weight, evictions: count, fits: false };
            },
        }
    }
    Evicted { weight, evictions: count, fits: true }
}

/// Of entries that were last touched at the same time, the one with the first key goes first.
pub proof fn eviction_breaks_ties_by_key<K: OrderedKey, V: Weighed>(
    entries: Seq<(K, V)>,
    protected: Option<K::V>,
    additional: u64,
    capacity: u64,
    gone: K::V,
    kept: K::V,
)
    requires
        ordered_map::keys_increase(entries),
        ordered_map::has_key(entries, gone),
        !ordered_map::has_key(evicted(entries, protected, additional, capacity), gone),
        ordered_map::has_key(evicted(entries, protected, additional, capacity), kept),
        protected != Some(kept),
    ensures
        ordered_map::value_of(entries, gone)->0.touched() < ordered_map::value_of(
            entries,
            kept,
        )->0.touched() || K::before(gone, kept),
    decreases entries.len(),
{
    if !fits(entries, additional, capacity) && exists|i: int| is_victim(entries, protected, i) {
        let i = choose|i: int| is_victim(entries, protected, i);
        let rest = entries.remove(i);
        ordered_map::lemma_remove(entries, i);
        ordered_map::lemma_position(entries, i);
        let victim = entries[i].0@;
        assert(ordered_map::without(entries, victim) == rest);
        eviction_only_removes(rest, protected, additional, capacity, kept);
        ordered_map::removal_changes_one_key(entries, victim, kept);
        ordered_map::removal_changes_one_key(entries, victim, gone);
        if victim == gone {
            let p = ordered_map::position_of(entries, kept);
            assert(entries[p].0@ == kept);
            assert(is_evictable(entries, protected, p));
            assert(p != i);
        } else {
            eviction_breaks_ties_by_key(rest, protected, additional, capacity, gone, kept);
        }
    }
}

/// No more goes than has to: where something went, one of the entries that went would not have fit
/// beside what stayed and what is to come. It is handed back.
pub proof fn eviction_stops_as_soon_as_it_fits<K: OrderedKey, V: Weighed>(
    entries: Seq<(K, V)>,
    protected: Option<K::V>,
    additional: u64,
    capacity: u64,
) -> (last: K::V)
    requires
        ordered_map::keys_increase(entries),
        evicted(entries, protected, additional, capacity).len() < entries.len(),
    ensures
        ordered_map::has_key(entries, last),
        !ordered_map::has_key(evicted(entries, protected, additional, capacity), last),
        total_weight(evicted(entries, protected, additional, capacity)) + ordered_map::value_of(
            entries,
            last,
        )->0.weight() + additional > capacity,
    decreases entries.len(),
{
    let i = choose|i: int| is_victim(entries, protected, i);
    let rest = entries.remove(i);
    ordered_map::lemma_remove(entries, i);
    ordered_map::lemma_position(entries, i);
    let victim = entries[i].0@;
    assert(ordered_map::without(entries, victim) == rest);
    lemma_weight_of_remove(entries, i);
    ordered_map::removal_changes_one_key(entries, victim, victim);
    if evicted(rest, protected, additional, capacity).len() < rest.len() {
        let last = eviction_stops_as_soon_as_it_fits(rest, protected, additional, capacity);
        ordered_map::removal_changes_one_key(entries, victim, last);
        last
    } else {
        eviction_keeps_all_or_fewer(rest, protected, additional, capacity);
        victim
    }
}

/// Eviction that takes nothing leaves everything as it is.
proof fn eviction_keeps_all_or_fewer<K: OrderedKey, V: Weighed>(
    entries: Seq<(K, V)>,
    protected: Option<K::V>,
    additional: u64,
    capacity: u64,
)
    requires
        ordered_map::keys_increase(entries),
        evicted(entries, protected, additional, capacity).len() >= entries.len(),
    ensures
        evicted(entries, protected, additional, capacity) == entries,
{
    if !fits(entries, additional, capacity) && exists|i: int| is_victim(entries, protected, i) {
        let i = choose|i: int| is_victim(entries, protected, i);
        ordered_map::lemma_remove(entries, i);
        eviction_keeps_order(entries.remove(i), protected, additional, capacity);
    }
}

/// The clock always moves on, and by one until it has run through its whole range. It never shows
/// zero afterwards. A counter counts every event until it has reached its maximum, and stays there.
pub proof fn clocks_and_counters_move_on(clock: u64, counter: u64, more: int)
    requires
        0 <= more,
    ensures
        next_tick(clock) != clock,
        next_tick(clock) > 0,
        clock < 0xffff_ffff_ffff_ffff ==> next_tick(clock) == clock + 1,
        counter + more <= 0xffff_ffff_ffff_ffff ==> counted(counter, more) == counter + more,
        counter + more > 0xffff_ffff_ffff_ffff ==> counted(counter, more)
            == 0xffff_ffff_ffff_ffff,
{
}

/// The weight of entries is that of each of them together: entries side by side weigh what the two
/// parts weigh, and one entry weighs its own weight.
pub proof fn weights_add_up<K: OrderedKey, V: Weighed>(some: Seq<(K, V)>, more: Seq<(K, V)>)
    ensures
        total_weight(Seq::<(K, V)>::empty()) == 0,
        more.len() == 1 ==> total_weight(more) == more[0].1.weight(),
        total_weight(some + more) == total_weight(some) + total_weight(more),
    decreases more.len(),
{
    if more.len() == 0 {
        assert(some + more =~= some);
    } else {
        weights_add_up(some, more.drop_last());
        assert((some + more).drop_last() =~= some + more.drop_last());
        if more.len() == 1 {
            assert(more.drop_last() =~= Seq::<(K, V)>::empty());
        }
    }
}

} // verus!
