//! Durable residency of device resources.
//!
//! Borrowed native handles cannot be kept beyond one call. This module is the longer-lived side:
//! an owner opens a resource once, and a capacity-bounded cache keeps it resident across calls.

use crate::lru;
use crate::lru::Touched;
use crate::ordered_map;
use crate::ordered_map::{OrderedKey, OrderedMap};
use crate::text;
use std::sync::Arc;
use vstd::prelude::*;
use vstd::string::*;

verus! {

/// The name of a durable resource: text that is not empty and has no white space around it.
#[derive(Debug, PartialEq, Eq, PartialOrd, Ord, Hash)]
pub struct ResidencyKey(String);

impl View for ResidencyKey {
    type V = Seq<char>;

    closed spec fn view(&self) -> Seq<char> {
        self.0@
    }
}

impl Clone for ResidencyKey {
    fn clone(&self) -> (r: Self)
        ensures
            r == *self,
    {
        ResidencyKey(self.0.clone())
    }
}

impl ResidencyKey {
    /// A key for `value` without the white space around it. Fails where nothing is left.
    pub fn new(value: &str) -> (r: Result<Self, ResidencyError>)
        ensures
            match r {
                Ok(key) => key@ == text::trimmed(value@) && text::is_identifier(key@),
                Err(error) => text::trimmed(value@).len() == 0 && error
                    == ResidencyError::InvalidKey,
            },
    {
        let trimmed = text::trim(value);
        if trimmed.is_empty() {
            return Err(ResidencyError::InvalidKey);
        }
        proof {
            text::trimmed_text_is_an_identifier(value@);
        }
        Ok(ResidencyKey(trimmed.to_owned()))
    }

    #[must_use]
    pub fn as_str(&self) -> (r: &str)
        ensures
            r@ == self@,
    {
        self.0.as_str()
    }

    fn is_same(&self, other: &Self) -> (r: bool)
        ensures
            r == (self@ == other@),
    {
        text::is_same_text(self.0.as_str(), other.0.as_str())
    }
}

impl OrderedKey for ResidencyKey {
    open spec fn before(a: Seq<char>, b: Seq<char>) -> bool {
        text::text_before(a, b)
    }

    proof fn before_is_asymmetric(a: Seq<char>, b: Seq<char>) {
        text::text_before_is_asymmetric(a, b);
    }

    proof fn before_is_transitive(a: Seq<char>, b: Seq<char>, c: Seq<char>) {
        text::text_before_is_transitive(a, b, c);
    }

    proof fn before_is_total(a: Seq<char>, b: Seq<char>) {
        text::text_before_is_total(a, b);
    }

    fn is_before(&self, other: &Self) -> (r: bool) {
        assert(self@ == self.0@ && other@ == other.0@);
        assert(Self::before(self@, other@) == text::text_before(self.0@, other.0@));
        text::is_text_before(self.0.as_str(), other.0.as_str())
    }
}

/// What a resident resource is asked to be.
#[derive(Debug, PartialEq, Eq)]
pub struct ResidencySpec {
    pub key: ResidencyKey,
    /// Generation of the resource. It changes whenever the owning allocation is replaced.
    pub generation: u64,
    pub device_index: i32,
    pub bytes: u64,
}

impl Clone for ResidencySpec {
    fn clone(&self) -> (r: Self)
        ensures
            r == *self,
    {
        ResidencySpec {
            key: self.key.clone(),
            generation: self.generation,
            device_index: self.device_index,
            bytes: self.bytes,
        }
    }
}

/// Whether two specs ask for the same resource.
pub open spec fn same_spec(a: ResidencySpec, b: ResidencySpec) -> bool {
    &&& a.key@ == b.key@
    &&& a.generation == b.generation
    &&& a.device_index == b.device_index
    &&& a.bytes == b.bytes
}

impl ResidencySpec {
    /// A device that exists and at least one byte.
    pub open spec fn is_valid(&self) -> bool {
        self.device_index >= 0 && self.bytes > 0
    }

    pub fn validate(&self) -> (r: Result<(), ResidencyError>)
        ensures
            match r {
                Ok(_) => self.is_valid(),
                Err(error) => !self.is_valid() && error == (ResidencyError::InvalidSpec {
                    key: self.key,
                    device_index: self.device_index,
                    bytes: self.bytes,
                }),
            },
    {
        if self.device_index < 0 || self.bytes == 0 {
            return Err(
                ResidencyError::InvalidSpec {
                    key: self.key.clone(),
                    device_index: self.device_index,
                    bytes: self.bytes,
                },
            );
        }
        Ok(())
    }

    /// The spec in words: every field with its name.
    pub open spec fn described(&self) -> Seq<char> {
        "ResidencySpec { key: ResidencyKey("@ + text::quoted_text(self.key@) + "), generation: "@
            + text::decimal(self.generation as nat) + ", device_index: "@ + text::signed_decimal(
            self.device_index as int,
        ) + ", bytes: "@ + text::decimal(self.bytes as nat) + " }"@
    }

    fn describe_to(&self, out: &mut String)
        ensures
            final(out)@ == old(out)@ + self.described(),
    {
        out.append("ResidencySpec { key: ResidencyKey(");
        out.append(text::quoted(self.key.as_str()).as_str());
        out.append("), generation: ");
        text::append_decimal(out, self.generation);
        out.append(", device_index: ");
        text::append_signed_decimal(out, self.device_index);
        out.append(", bytes: ");
        text::append_decimal(out, self.bytes);
        out.append(" }");
        proof {
            assert(out@ =~= old(out)@ + self.described());
        }
    }

    fn is_same(&self, other: &Self) -> (r: bool)
        ensures
            r == same_spec(*self, *other),
    {
        self.key.is_same(&other.key) && self.generation == other.generation && self.device_index
            == other.device_index && self.bytes == other.bytes
    }
}

/// A durable allocation or import that its provider owns.
///
/// Implementations may own native objects. These are never handed out as handles to keep.
pub trait ResidentAllocation: Send + Sync {
    fn spec(&self) -> &ResidencySpec;
}

/// Opens a durable resource whose lifetime is that of the returned allocation.
pub trait ResidencyProvider<A: ResidentAllocation + ?Sized>: Send + Sync {
    fn open(&self, spec: &ResidencySpec) -> Result<Arc<A>, ResidencyError>;
}

#[derive(Debug, Clone, Copy, PartialEq, Eq, Structural)]
pub struct ResidencyStats {
    pub entries: usize,
    pub resident_bytes: u64,
    pub hits: u64,
    pub misses: u64,
    pub evictions: u64,
}

impl Default for ResidencyStats {
    fn default() -> (r: Self)
        ensures
            r == (ResidencyStats {
                entries: 0,
                resident_bytes: 0,
                hits: 0,
                misses: 0,
                evictions: 0,
            }),
    {
        ResidencyStats { entries: 0, resident_bytes: 0, hits: 0, misses: 0, evictions: 0 }
    }
}

#[derive(Debug, PartialEq, Eq)]
#[allow(inconsistent_fields)]
pub enum ResidencyError {
    InvalidKey,
    InvalidSpec { key: ResidencyKey, device_index: i32, bytes: u64 },
    ZeroCapacity,
    CapacityExceeded { requested: u64, capacity: u64 },
    Provider(String),
    ProviderContract { requested: ResidencySpec, returned: ResidencySpec },
    Poisoned,
}

impl ResidencyError {
    /// The text of the error.
    pub open spec fn text(&self) -> Seq<char> {
        match self {
            ResidencyError::InvalidKey => "residency key cannot be empty"@,
            ResidencyError::InvalidSpec { key, device_index, bytes } => {
                "invalid residency spec for '"@ + key@ + "': device_index="@
                    + text::signed_decimal(device_index as int) + ", bytes="@
                    + text::decimal(bytes as nat)
            },
            ResidencyError::ZeroCapacity => "residency cache capacity must be non-zero"@,
            ResidencyError::CapacityExceeded { requested, capacity } => {
                "residency capacity exceeded: requested "@
                    + text::decimal(requested as nat) + " bytes, capacity "@
                    + text::decimal(capacity as nat) + " bytes"@
            },
            ResidencyError::Provider(reason) => "residency provider failed: "@ + reason@,
            ResidencyError::ProviderContract { requested, returned } => {
                "residency provider contract violation: requested "@
                    + requested.described() + ", returned "@ + returned.described()
            },
            ResidencyError::Poisoned => "residency cache lock is poisoned"@,
        }
    }

    pub fn message(&self) -> (r: String)
        ensures
            r@ == self.text(),
    {
        match self {
            ResidencyError::InvalidKey => "residency key cannot be empty".to_owned(),
            ResidencyError::InvalidSpec { key, device_index, bytes } => {
                let mut r = "invalid residency spec for '".to_owned();
                r.append(key.as_str());
                r.append("': device_index=");
                text::append_signed_decimal(&mut r, *device_index);
                r.append(", bytes=");
                text::append_decimal(&mut r, *bytes as u64);
                r
            },
            ResidencyError::ZeroCapacity => "residency cache capacity must be non-zero".to_owned(),
            ResidencyError::CapacityExceeded { requested, capacity } => {
                let mut r = "residency capacity exceeded: requested ".to_owned();
                text::append_decimal(&mut r, *requested as u64);
                r.append(" bytes, capacity ");
                text::append_decimal(&mut r, *capacity as u64);
                r.append(" bytes");
                r
            },
            ResidencyError::Provider(reason) => {
                let mut r = "residency provider failed: ".to_owned();
                r.append(reason.as_str());
                r
            },
            ResidencyError::ProviderContract { requested, returned } => {
                let mut r = "residency provider contract violation: requested ".to_owned();
                requested.describe_to(&mut r);
                r.append(", returned ");
                returned.describe_to(&mut r);
                r
            },
            ResidencyError::Poisoned => "residency cache lock is poisoned".to_owned(),
        }
    }
}

impl Clone for ResidencyError {
    fn clone(&self) -> (r: Self)
        ensures
            r == *self,
    {
        match self {
            ResidencyError::InvalidKey => ResidencyError::InvalidKey,
            ResidencyError::InvalidSpec { key, device_index, bytes } => {
                ResidencyError::InvalidSpec {
                    key: key.clone(),
                    device_index: *device_index,
                    bytes: *bytes,
                }
            },
            ResidencyError::ZeroCapacity => ResidencyError::ZeroCapacity,
            ResidencyError::CapacityExceeded { requested, capacity } => {
                ResidencyError::CapacityExceeded { requested: *requested, capacity: *capacity }
            },
            ResidencyError::Provider(reason) => ResidencyError::Provider(reason.clone()),
            ResidencyError::ProviderContract { requested, returned } => {
                ResidencyError::ProviderContract {
                    requested: requested.clone(),
                    returned: returned.clone(),
                }
            },
            ResidencyError::Poisoned => ResidencyError::Poisoned,
        }
    }
}

/// One resident resource: the allocation and when it was last used.
pub struct ResidentEntry<A: ResidentAllocation + ?Sized> {
    allocation: Arc<A>,
    last_touch: u64,
}

impl<A: ResidentAllocation + ?Sized> ResidentEntry<A> {
    pub closed spec fn allocation(&self) -> Arc<A> {
        self.allocation
    }
}

impl<A: ResidentAllocation + ?Sized> Touched for ResidentEntry<A> {
    closed spec fn touched(&self) -> u64 {
        self.last_touch
    }

    fn last_touched(&self) -> (r: u64) {
        self.last_touch
    }
}

/// Whether an allocation that is asked for its spec can report `answer`. It is asked anew each
/// time, and may answer anew.
pub open spec fn can_report<A: ResidentAllocation + ?Sized>(
    allocation: Arc<A>,
    answer: ResidencySpec,
) -> bool {
    call_ensures(A::spec, (&*allocation,), &answer)
}

/// Whether an allocation can be found to be what `spec` asks for or, where `same` is false, to be
/// something else.
pub open spec fn can_be_found<A: ResidentAllocation + ?Sized>(
    allocation: Arc<A>,
    spec: ResidencySpec,
    same: bool,
) -> bool {
    exists|answer: ResidencySpec| #[trigger]
        can_report(allocation, answer) && same_spec(answer, spec) == same
}

/// What is left of `held` bytes when `freed` go: none where that is more.
pub open spec fn left(held: u64, freed: u64) -> u64 {
    if held >= freed {
        (held - freed) as u64
    } else {
        0
    }
}

/// What a cache holds: its capacity, its entries in the order of their keys, the bytes it counts
/// for them, and its counters.
pub struct ResidencyModel<A: ResidentAllocation + ?Sized> {
    pub capacity: u64,
    pub entries: Seq<(ResidencyKey, ResidentEntry<A>)>,
    pub resident_bytes: u64,
    pub clock: u64,
    pub hits: u64,
    pub misses: u64,
    pub evictions: u64,
}

impl<A: ResidentAllocation + ?Sized> ResidencyModel<A> {
    /// What every cache keeps: entries in order, and never more bytes than the capacity.
    pub open spec fn wf(self) -> bool {
        &&& self.capacity > 0
        &&& ordered_map::keys_increase(self.entries)
        &&& self.resident_bytes <= self.capacity
    }

    /// The allocation under `key`.
    pub open spec fn allocation(self, key: Seq<char>) -> Arc<A> {
        ordered_map::value_of(self.entries, key)->0.allocation()
    }

    /// Whether `bytes` more fit.
    pub open spec fn has_room(self, bytes: u64) -> bool {
        self.resident_bytes + bytes <= self.capacity
    }

    /// Whether `spec` can be admitted as it stands: its key is free and its bytes fit.
    pub open spec fn has_room_for(self, spec: ResidencySpec) -> bool {
        !ordered_map::has_key(self.entries, spec.key@) && self.has_room(spec.bytes)
    }

    /// This state without the entry under `key`, whose allocation reported `bytes`.
    pub open spec fn dropped(self, key: Seq<char>, bytes: u64) -> Self {
        ResidencyModel {
            entries: ordered_map::without(self.entries, key),
            resident_bytes: left(self.resident_bytes, bytes),
            evictions: lru::counted(self.evictions, 1),
            ..self
        }
    }

    /// The entry that goes next: the least recently used one.
    pub open spec fn victim(self) -> (ResidencyKey, ResidentEntry<A>) {
        self.entries[choose|i: int| lru::is_victim(self.entries, None, i)]
    }

    /// This state after one victim after the other has gone, each of which reported its own of
    /// the answers.
    pub open spec fn after_drops(self, answers: Seq<ResidencySpec>) -> Self
        decreases answers.len(),
    {
        if answers.len() == 0 {
            self
        } else {
            let before = self.after_drops(answers.drop_last());
            before.dropped(before.victim().0@, answers.last().bytes)
        }
    }

    /// Whether drop `k` is owed: there is no room yet, and the victim can report what it did.
    pub open spec fn is_owed(self, bytes: u64, answers: Seq<ResidencySpec>, k: int) -> bool {
        let before = self.after_drops(answers.take(k));
        &&& !before.has_room(bytes)
        &&& before.entries.len() > 0
        &&& can_report(before.victim().1.allocation(), answers[k])
    }

    /// Whether every drop is owed.
    pub open spec fn are_owed(self, bytes: u64, answers: Seq<ResidencySpec>) -> bool {
        forall|k: int| 0 <= k < answers.len() ==> #[trigger] self.is_owed(bytes, answers, k)
    }

    /// `after` is this state after victims have gone until `bytes` more fit or nothing is left.
    pub open spec fn made_room(
        self,
        bytes: u64,
        answers: Seq<ResidencySpec>,
        after: Self,
    ) -> bool {
        &&& self.are_owed(bytes, answers)
        &&& after == self.after_drops(answers)
        &&& after.has_room(bytes) || after.entries.len() == 0
    }

    /// This state after a miss: what was under `key` has gone, and reported `stale` bytes.
    pub open spec fn missed(self, key: Seq<char>, stale: u64) -> Self {
        let counted = ResidencyModel {
            clock: lru::next_tick(self.clock),
            misses: lru::counted(self.misses, 1),
            ..self
        };
        if ordered_map::has_key(self.entries, key) {
            counted.dropped(key, stale)
        } else {
            counted
        }
    }

    /// `after` is this state after a miss and the making of room for `spec`, where what was under
    /// the key was found to be something else and then reported `stale`.
    pub open spec fn prepared(
        self,
        spec: ResidencySpec,
        stale: ResidencySpec,
        answers: Seq<ResidencySpec>,
        after: Self,
    ) -> bool {
        &&& ordered_map::has_key(self.entries, spec.key@) ==> can_be_found(
            self.allocation(spec.key@),
            spec,
            false,
        ) && can_report(self.allocation(spec.key@), stale)
        &&& self.missed(spec.key@, stale.bytes).made_room(spec.bytes, answers, after)
    }

    /// Whether asking for `spec` can miss and leave `after` before anything is opened.
    pub open spec fn can_miss(self, spec: ResidencySpec, after: Self) -> bool {
        exists|stale: ResidencySpec, answers: Seq<ResidencySpec>| #[trigger]
            self.prepared(spec, stale, answers, after)
    }

    /// Whether asking for `spec` can be answered from the cache.
    pub open spec fn can_hit(self, spec: ResidencySpec) -> bool {
        &&& ordered_map::has_key(self.entries, spec.key@)
        &&& can_be_found(self.allocation(spec.key@), spec, true)
    }

    /// `after` is this state with the entry under the key used just now: one more hit.
    pub open spec fn hit(self, spec: ResidencySpec, after: Self) -> bool {
        let i = ordered_map::position_of(self.entries, spec.key@);
        &&& after == (ResidencyModel {
            entries: after.entries,
            clock: lru::next_tick(self.clock),
            hits: lru::counted(self.hits, 1),
            ..self
        })
        &&& after.entries.len() == self.entries.len()
        &&& after.entries[i].0 == self.entries[i].0
        &&& after.entries[i].1.allocation() == self.entries[i].1.allocation()
        &&& after.entries[i].1.touched() == after.clock
        &&& after.entries == self.entries.update(i, after.entries[i])
    }

    /// `after` is this state with `allocation` resident for `spec`.
    pub open spec fn admitted(self, spec: ResidencySpec, allocation: Arc<A>, after: Self) -> bool {
        let entry = ordered_map::value_of(after.entries, spec.key@)->0;
        &&& after == (ResidencyModel {
            entries: after.entries,
            resident_bytes: (self.resident_bytes + spec.bytes) as u64,
            ..self
        })
        &&& ordered_map::has_key(after.entries, spec.key@)
        &&& ordered_map::inserted(self.entries, spec.key, entry, after.entries)
        &&& entry.allocation() == allocation
        &&& entry.touched() == self.clock
    }

    /// What asking for `spec` comes to where there is room: the provider answers `outcome`, and an
    /// allocation that it opens reports `reported` and, if that is not what was asked for,
    /// `returned` when it is asked again.
    pub open spec fn opened(
        self,
        spec: ResidencySpec,
        outcome: Result<Arc<A>, ResidencyError>,
        reported: ResidencySpec,
        returned: ResidencySpec,
        result: Result<Arc<A>, ResidencyError>,
        after: Self,
    ) -> bool {
        match outcome {
            Err(error) => result == Err::<Arc<A>, _>(error) && after == self,
            Ok(allocation) => {
                &&& can_report(allocation, reported)
                &&& if same_spec(reported, spec) {
                    &&& result == Ok::<_, ResidencyError>(allocation)
                    &&& self.admitted(spec, allocation, after)
                } else {
                    &&& can_report(allocation, returned)
                    &&& result == Err::<Arc<A>, _>(
                        ResidencyError::ProviderContract { requested: spec, returned },
                    )
                    &&& after == self
                }
            },
        }
    }
}

/// A capacity-bounded cache of resident resources, least recently used first to go.
pub struct ResidencyCache<A: ResidentAllocation + ?Sized> {
    capacity_bytes: u64,
    entries: OrderedMap<ResidencyKey, ResidentEntry<A>>,
    resident_bytes: u64,
    clock: u64,
    hits: u64,
    misses: u64,
    evictions: u64,
}

impl<A: ResidentAllocation + ?Sized> View for ResidencyCache<A> {
    type V = ResidencyModel<A>;

    closed spec fn view(&self) -> ResidencyModel<A> {
        ResidencyModel {
            capacity: self.capacity_bytes,
            entries: self.entries@,
            resident_bytes: self.resident_bytes,
            clock: self.clock,
            hits: self.hits,
            misses: self.misses,
            evictions: self.evictions,
        }
    }
}

impl<A: ResidentAllocation + ?Sized> ResidencyCache<A> {
    pub open spec fn wf(&self) -> bool {
        self@.wf()
    }

    /// An empty cache. Fails where the capacity is zero.
    pub fn new(capacity_bytes: u64) -> (r: Result<Self, ResidencyError>)
        ensures
            match r {
                Ok(cache) => {
                    &&& capacity_bytes > 0
                    &&& cache.wf()
                    &&& cache@ == (ResidencyModel::<A> {
                        capacity: capacity_bytes,
                        entries: Seq::empty(),
                        resident_bytes: 0,
                        clock: 0,
                        hits: 0,
                        misses: 0,
                        evictions: 0,
                    })
                },
                Err(error) => capacity_bytes == 0 && error == ResidencyError::ZeroCapacity,
            },
    {
        if capacity_bytes == 0 {
            return Err(ResidencyError::ZeroCapacity);
        }
        Ok(
            ResidencyCache {
                capacity_bytes,
                entries: OrderedMap::new(),
                resident_bytes: 0,
                clock: 0,
                hits: 0,
                misses: 0,
                evictions: 0,
            },
        )
    }

    #[must_use]
    pub fn capacity_bytes(&self) -> (r: u64)
        ensures
            r == self@.capacity,
    {
        self.capacity_bytes
    }

    /// Takes the entry at `i` out and frees the bytes that its allocation reports.
    fn drop_at(&mut self, i: usize) -> (answer: Ghost<ResidencySpec>)
        requires
            old(self).wf(),
            i < old(self)@.entries.len(),
        ensures
            final(self).wf(),
            can_report(old(self)@.entries[i as int].1.allocation(), answer@),
            final(self)@ == old(self)@.dropped(old(self)@.entries[i as int].0@, answer@.bytes),
    {
        proof {
            ordered_map::lemma_position(self@.entries, i as int);
            ordered_map::lemma_remove(self@.entries, i as int);
        }
        let (_, removed) = self.entries.remove_at(i);
        let answer = removed.allocation.spec();
        self.resident_bytes = self.resident_bytes.saturating_sub(answer.bytes);
        self.evictions = self.evictions.saturating_add(1);
        assert(can_report(removed.allocation, *answer));
        Ghost(*answer)
    }

    /// Lets victims go until `bytes` more fit or nothing is left. Says whether they fit.
    fn make_room(&mut self, bytes: u64) -> (r: (bool, Ghost<Seq<ResidencySpec>>))
        requires
            old(self).wf(),
            bytes <= old(self)@.capacity,
        ensures
            final(self).wf(),
            old(self)@.made_room(bytes, r.1@, final(self)@),
            r.0 == final(self)@.has_room(bytes),
    {
        let ghost start = self@;
        let ghost mut answers = Seq::<ResidencySpec>::empty();
        while self.resident_bytes > self.capacity_bytes - bytes
            invariant
                self.wf(),
                bytes <= self@.capacity,
                start == old(self)@,
                start.are_owed(bytes, answers),
                self@ == start.after_drops(answers),
            decreases self@.entries.len(),
        {
            let ghost now = self@;
            match lru::find_victim(&self.entries, &None) {
                Some(i) => {
                    proof {
                        let c = choose|i: int| lru::is_victim(now.entries, None, i);
                        lru::lemma_victim_is_unique(now.entries, None, i as int, c);
                        ordered_map::lemma_position(now.entries, i as int);
                    }
                    let answer = self.drop_at(i);
                    proof {
                        lemma_one_more_drop(start, bytes, answers, answer@);
                        answers = answers.push(answer@);
                    }
                },
                None => {
                    proof {
                        if now.entries.len() > 0 {
                            assert(lru::is_evictable(now.entries, None, 0));
                        }
                    }
                    return (false, Ghost(answers));
                },
            }
        }
        (true, Ghost(answers))
    }

    /// Answers from the cache where it can. Where it cannot, makes the room that opening `spec`
    /// needs and answers nothing. Fails where the room cannot be made, which happens only with
    /// allocations that report fewer bytes when they go than when they came.
    pub fn prepare(&mut self, spec: &ResidencySpec) -> (r: Result<Option<Arc<A>>, ResidencyError>)
        requires
            old(self).wf(),
        ensures
            final(self).wf(),
            match refusal(*spec, old(self)@.capacity) {
                Some(error) => r == Err::<Option<Arc<A>>, _>(error) && final(self)@ == old(self)@,
                None => match r {
                    Ok(Some(allocation)) => {
                        &&& old(self)@.can_hit(*spec)
                        &&& allocation == old(self)@.allocation(spec.key@)
                        &&& old(self)@.hit(*spec, final(self)@)
                    },
                    Ok(None) => {
                        &&& old(self)@.can_miss(*spec, final(self)@)
                        &&& final(self)@.has_room_for(*spec)
                    },
                    Err(error) => {
                        &&& old(self)@.can_miss(*spec, final(self)@)
                        &&& !final(self)@.has_room(spec.bytes)
                        &&& error == (ResidencyError::CapacityExceeded {
                            requested: spec.bytes,
                            capacity: old(self)@.capacity,
                        })
                    },
                },
            },
    {
        match spec.validate() {
            Ok(_) => {},
            Err(error) => {
                return Err(error);
            },
        }
        if spec.bytes > self.capacity_bytes {
            return Err(
                ResidencyError::CapacityExceeded {
                    requested: spec.bytes,
                    capacity: self.capacity_bytes,
                },
            );
        }
        let ghost before = self@;
        let ghost mut stale = *spec;
        self.clock = lru::tick(self.clock);
        match self.entries.find(&spec.key) {
            Some(i) => {
                proof {
                    ordered_map::lemma_position(before.entries, i as int);
                }
                let found = self.entries.value_at(i).allocation.clone();
                let answer = found.spec();
                assert(can_report(before.allocation(spec.key@), *answer));
                if answer.is_same(spec) {
                    self.hits = self.hits.saturating_add(1);
                    let touch: u64 = self.clock;
                    let entry = self.entries.value_at_mut(i);
                    entry.last_touch = touch;
                    proof {
                        let now = self@.entries[i as int];
                        assert(self@.entries == before.entries.update(i as int, now));
                        ordered_map::lemma_update(before.entries, i as int, now.1);
                    }
                    return Ok(Some(found));
                }
                let answer = self.drop_at(i);
                proof {
                    stale = answer@;
                }
            },
            None => {},
        }
        self.misses = self.misses.saturating_add(1);
        let ghost start = self@;
        assert(start == before.missed(spec.key@, stale.bytes));
        let (fits, answers) = self.make_room(spec.bytes);
        proof {
            assert(before.prepared(*spec, stale, answers@, self@));
            ordered_map::removal_changes_one_key(before.entries, spec.key@, spec.key@);
            lemma_drops_only_remove(start, spec.bytes, answers@, spec.key@);
        }
        if fits {
            Ok(None)
        } else {
            Err(
                ResidencyError::CapacityExceeded {
                    requested: spec.bytes,
                    capacity: self.capacity_bytes,
                },
            )
        }
    }

    /// Takes in what the provider opened for `spec`.
    pub fn take_in(&mut self, spec: &ResidencySpec, allocation: Arc<A>)
        requires
            old(self).wf(),
            old(self)@.has_room_for(*spec),
        ensures
            final(self).wf(),
            old(self)@.admitted(*spec, allocation, final(self)@),
    {
        let ghost before = self@;
        let entry = ResidentEntry { allocation, last_touch: self.clock };
        self.resident_bytes = self.resident_bytes + spec.bytes;
        let key = spec.key.clone();
        self.entries.insert(key, entry);
        proof {
            ordered_map::insertion_changes_one_key(
                before.entries,
                key,
                entry,
                self@.entries,
                key@,
            );
        }
    }

    /// The resident allocation for `spec`: the one in the cache, or one that `provider` opens.
    pub fn acquire<P: ResidencyProvider<A> + ?Sized>(
        &mut self,
        provider: &P,
        spec: &ResidencySpec,
    ) -> (r: Result<Arc<A>, ResidencyError>)
        requires
            old(self).wf(),
        ensures
            final(self).wf(),
            match refusal(*spec, old(self)@.capacity) {
                Some(error) => r == Err::<Arc<A>, _>(error) && final(self)@ == old(self)@,
                None => {
                    ||| {
                        &&& old(self)@.can_hit(*spec)
                        &&& r == Ok::<_, ResidencyError>(old(self)@.allocation(spec.key@))
                        &&& old(self)@.hit(*spec, final(self)@)
                    }
                    ||| exists|room: ResidencyModel<A>|
                        {
                            &&& #[trigger] old(self)@.can_miss(*spec, room)
                            &&& if room.has_room(spec.bytes) {
                                exists|
                                    outcome: Result<Arc<A>, ResidencyError>,
                                    reported: ResidencySpec,
                                    returned: ResidencySpec,
                                |
                                    {
                                        &&& call_ensures(P::open, (provider, spec), outcome)
                                        &&& #[trigger] room.opened(
                                            *spec,
                                            outcome,
                                            reported,
                                            returned,
                                            r,
                                            final(self)@,
                                        )
                                    }
                            } else {
                                &&& r == Err::<Arc<A>, _>(
                                    ResidencyError::CapacityExceeded {
                                        requested: spec.bytes,
                                        capacity: old(self)@.capacity,
                                    },
                                )
                                &&& final(self)@ == room
                            }
                        }
                },
            },
    {
        match self.prepare(spec) {
            Err(error) => {
                return Err(error);
            },
            Ok(Some(allocation)) => {
                return Ok(allocation);
            },
            Ok(None) => {},
        }
        let ghost room = self@;
        assert(old(self)@.can_miss(*spec, room));
        let outcome = provider.open(spec);
        match outcome {
            Err(error) => {
                assert(room.opened(*spec, outcome, *spec, *spec, Err(error), self@));
                Err(error)
            },
            Ok(allocation) => {
                let opened = allocation.clone();
                let reported = opened.spec();
                assert(can_report(allocation, *reported));
                if !reported.is_same(spec) {
                    let returned = opened.spec();
                    assert(can_report(allocation, *returned));
                    let refused = Err(
                        ResidencyError::ProviderContract {
                            requested: spec.clone(),
                            returned: returned.clone(),
                        },
                    );
                    assert(room.opened(*spec, outcome, *reported, *returned, refused, self@));
                    return refused;
                }
                self.take_in(spec, allocation.clone());
                assert(room.opened(*spec, outcome, *reported, *spec, Ok(allocation), self@));
                Ok(allocation)
            },
        }
    }

    /// Lets the resource under `key` go. Says whether there was one.
    pub fn invalidate(&mut self, key: &ResidencyKey) -> (r: Result<bool, ResidencyError>)
        requires
            old(self).wf(),
        ensures
            final(self).wf(),
            r == Ok::<_, ResidencyError>(ordered_map::has_key(old(self)@.entries, key@)),
            if ordered_map::has_key(old(self)@.entries, key@) {
                exists|answer: ResidencySpec|
                    {
                        &&& #[trigger] can_report(old(self)@.allocation(key@), answer)
                        &&& final(self)@ == old(self)@.dropped(key@, answer.bytes)
                    }
            } else {
                final(self)@ == old(self)@
            },
    {
        match self.entries.find(key) {
            Some(i) => {
                proof {
                    ordered_map::lemma_position(self@.entries, i as int);
                }
                let answer = self.drop_at(i);
                assert(can_report(old(self)@.allocation(key@), answer@));
                Ok(true)
            },
            None => Ok(false),
        }
    }

    /// Lets every resource go.
    pub fn clear(&mut self) -> (r: Result<(), ResidencyError>)
        requires
            old(self).wf(),
        ensures
            r is Ok,
            final(self).wf(),
            final(self)@ == (ResidencyModel {
                entries: Seq::empty(),
                resident_bytes: 0,
                evictions: lru::counted(old(self)@.evictions, old(self)@.entries.len() as int),
                ..old(self)@
            }),
    {
        self.evictions = self.evictions.saturating_add(self.entries.len() as u64);
        self.entries.clear();
        self.resident_bytes = 0;
        Ok(())
    }

    pub fn stats(&self) -> (r: Result<ResidencyStats, ResidencyError>)
        ensures
            r matches Ok(stats) && {
                &&& stats.entries == self@.entries.len()
                &&& stats.resident_bytes == self@.resident_bytes
                &&& stats.hits == self@.hits
                &&& stats.misses == self@.misses
                &&& stats.evictions == self@.evictions
            },
    {
        Ok(
            ResidencyStats {
                entries: self.entries.len(),
                resident_bytes: self.resident_bytes,
                hits: self.hits,
                misses: self.misses,
                evictions: self.evictions,
            },
        )
    }
}

/// Why `spec` cannot be resident in a cache of this capacity at all.
pub open spec fn refusal(spec: ResidencySpec, capacity: u64) -> Option<ResidencyError> {
    if !spec.is_valid() {
        Some(
            ResidencyError::InvalidSpec {
                key: spec.key,
                device_index: spec.device_index,
                bytes: spec.bytes,
            },
        )
    } else if spec.bytes > capacity {
        Some(ResidencyError::CapacityExceeded { requested: spec.bytes, capacity })
    } else {
        None
    }
}

/// One more drop is owed where there is no room yet.
proof fn lemma_one_more_drop<A: ResidentAllocation + ?Sized>(
    start: ResidencyModel<A>,
    bytes: u64,
    answers: Seq<ResidencySpec>,
    answer: ResidencySpec,
)
    requires
        start.are_owed(bytes, answers),
        !start.after_drops(answers).has_room(bytes),
        start.after_drops(answers).entries.len() > 0,
        can_report(start.after_drops(answers).victim().1.allocation(), answer),
    ensures
        start.are_owed(bytes, answers.push(answer)),
        start.after_drops(answers.push(answer)) == start.after_drops(answers).dropped(
            start.after_drops(answers).victim().0@,
            answer.bytes,
        ),
{
    let more = answers.push(answer);
    assert(more.drop_last() =~= answers);
    assert forall|k: int| 0 <= k < more.len() implies #[trigger] start.is_owed(bytes, more, k) by {
        assert(more.take(k) =~= answers.take(k));
        if k < answers.len() {
            assert(start.is_owed(bytes, answers, k));
            assert(more[k] == answers[k]);
        } else {
            assert(answers.take(k) =~= answers);
        }
    }
}

/// What is owed of all drops is owed of all but the last, and the last one takes a victim.
proof fn lemma_last_drop<A: ResidentAllocation + ?Sized>(
    start: ResidencyModel<A>,
    bytes: u64,
    answers: Seq<ResidencySpec>,
) -> (i: int)
    requires
        start.are_owed(bytes, answers),
        answers.len() > 0,
    ensures
        start.are_owed(bytes, answers.drop_last()),
        ({
            let before = start.after_drops(answers.drop_last());
            &&& !before.has_room(bytes)
            &&& can_report(before.victim().1.allocation(), answers.last())
            &&& lru::is_victim(before.entries, None, i)
            &&& before.victim() == before.entries[i]
        }),
{
    let fewer = answers.drop_last();
    let n = fewer.len() as int;
    assert(answers.take(n) =~= fewer);
    assert(start.is_owed(bytes, answers, n)) by {
        assert(answers[n] == answers.last());
    }
    assert forall|k: int| 0 <= k < fewer.len() implies #[trigger] start.is_owed(
        bytes,
        fewer,
        k,
    ) by {
        assert(answers.take(k) =~= fewer.take(k));
        assert(answers[k] == fewer[k]);
        assert(start.is_owed(bytes, answers, k));
    }
    let before = start.after_drops(fewer);
    if !(exists|i: int| lru::is_victim(before.entries, None, i)) {
        lru::lemma_no_victim(before.entries, None);
        assert(lru::is_evictable(before.entries, None, 0));
    }
    choose|i: int| lru::is_victim(before.entries, None, i)
}

/// Drops only take entries away, and leave the clock and the capacity alone.
proof fn lemma_drops_only_remove<A: ResidentAllocation + ?Sized>(
    start: ResidencyModel<A>,
    bytes: u64,
    answers: Seq<ResidencySpec>,
    key: Seq<char>,
)
    requires
        start.wf(),
        start.are_owed(bytes, answers),
    ensures
        start.after_drops(answers).wf(),
        start.after_drops(answers).clock == start.clock,
        start.after_drops(answers).capacity == start.capacity,
        ordered_map::has_key(start.after_drops(answers).entries, key) ==> ordered_map::has_key(
            start.entries,
            key,
        ) && ordered_map::value_of(start.after_drops(answers).entries, key)
            == ordered_map::value_of(start.entries, key),
    decreases answers.len(),
{
    if answers.len() > 0 {
        let before = start.after_drops(answers.drop_last());
        let i = lemma_last_drop(start, bytes, answers);
        lemma_drops_only_remove(start, bytes, answers.drop_last(), key);
        ordered_map::lemma_position(before.entries, i);
        ordered_map::lemma_remove(before.entries, i);
        ordered_map::removal_changes_one_key(before.entries, before.victim().0@, key);
    }
}

/// Whether the clock has passed every use.
pub open spec fn clock_is_ahead<A: ResidentAllocation + ?Sized>(state: ResidencyModel<A>) -> bool {
    forall|i: int|
        #![trigger state.entries[i]]
        0 <= i < state.entries.len() ==> state.entries[i].1.touched() <= state.clock
}

/// Whether the resource under `key` was touched after every other.
pub open spec fn is_most_recent<A: ResidentAllocation + ?Sized>(
    state: ResidencyModel<A>,
    key: Seq<char>,
) -> bool {
    &&& ordered_map::has_key(state.entries, key)
    &&& forall|i: int|
        #![trigger state.entries[i]]
        0 <= i < state.entries.len() && state.entries[i].0@ != key
            ==> state.entries[i].1.touched() < ordered_map::value_of(
            state.entries,
            key,
        )->0.touched()
}

/// As long as the clock has not run through its whole range, an answer from the cache touches its
/// resource after every other.
pub proof fn a_hit_is_the_most_recent<A: ResidentAllocation + ?Sized>(
    before: ResidencyModel<A>,
    spec: ResidencySpec,
    after: ResidencyModel<A>,
)
    requires
        before.wf(),
        after.wf(),
        ordered_map::has_key(before.entries, spec.key@),
        before.hit(spec, after),
        clock_is_ahead(before),
        before.clock < u64::MAX,
    ensures
        clock_is_ahead(after),
        is_most_recent(after, spec.key@),
{
    let p = ordered_map::position_of(before.entries, spec.key@);
    assert(before.entries[p].0@ == spec.key@);
    assert(after.entries[p].0@ == spec.key@);
    ordered_map::lemma_position(after.entries, p);
    assert forall|i: int| #![trigger after.entries[i]] 0 <= i < after.entries.len() implies (
    after.entries[i].1.touched() <= after.clock && (after.entries[i].0@ != spec.key@
        ==> after.entries[i].1.touched() < after.clock)) by {
        if i != p {
            assert(after.entries[i] == before.entries[i]);
        }
    }
}

/// The entries that a miss leaves are some of those that were there, as they were, and none is
/// left under the key that was asked for.
pub proof fn a_miss_only_removes<A: ResidentAllocation + ?Sized>(
    before: ResidencyModel<A>,
    spec: ResidencySpec,
    room: ResidencyModel<A>,
    key: Seq<char>,
)
    requires
        before.wf(),
        before.can_miss(spec, room),
    ensures
        room.wf(),
        room.clock == lru::next_tick(before.clock),
        room.capacity == before.capacity,
        !ordered_map::has_key(room.entries, spec.key@),
        ordered_map::has_key(room.entries, key) ==> ordered_map::has_key(before.entries, key)
            && ordered_map::value_of(room.entries, key) == ordered_map::value_of(
            before.entries,
            key,
        ),
{
    let (stale, answers) = choose|stale: ResidencySpec, answers: Seq<ResidencySpec>| #[trigger]
        before.prepared(spec, stale, answers, room);
    let start = before.missed(spec.key@, stale.bytes);
    if ordered_map::has_key(before.entries, spec.key@) {
        let q = ordered_map::position_of(before.entries, spec.key@);
        assert(before.entries[q].0@ == spec.key@);
        ordered_map::lemma_remove(before.entries, q);
    }
    ordered_map::removal_changes_one_key(before.entries, spec.key@, key);
    lemma_drops_only_remove(start, spec.bytes, answers, key);
    lemma_drops_only_remove(start, spec.bytes, answers, spec.key@);
}

/// As long as the clock has not run through its whole range, a resource that is taken in is
/// touched after every other.
pub proof fn a_resource_taken_in_is_the_most_recent<A: ResidentAllocation + ?Sized>(
    before: ResidencyModel<A>,
    spec: ResidencySpec,
    room: ResidencyModel<A>,
    allocation: Arc<A>,
    after: ResidencyModel<A>,
)
    requires
        before.wf(),
        after.wf(),
        before.can_miss(spec, room),
        room.admitted(spec, allocation, after),
        clock_is_ahead(before),
        before.clock < u64::MAX,
    ensures
        clock_is_ahead(after),
        is_most_recent(after, spec.key@),
{
    let entry = ordered_map::value_of(after.entries, spec.key@)->0;
    assert forall|i: int| #![trigger after.entries[i]] 0 <= i < after.entries.len() implies (
    after.entries[i].1.touched() <= after.clock && (after.entries[i].0@ != spec.key@
        ==> after.entries[i].1.touched() < after.clock)) by {
        let other = after.entries[i].0@;
        ordered_map::lemma_position(after.entries, i);
        a_miss_only_removes(before, spec, room, other);
        if other != spec.key@ {
            ordered_map::insertion_changes_one_key(
                room.entries,
                spec.key,
                entry,
                after.entries,
                other,
            );
            let q = ordered_map::position_of(before.entries, other);
            assert(before.entries[q].1.touched() <= before.clock);
        }
    }
}

/// Least recently used first: no resource that goes to make room was touched after one that
/// stays.
pub proof fn the_least_recent_go_first<A: ResidentAllocation + ?Sized>(
    start: ResidencyModel<A>,
    bytes: u64,
    answers: Seq<ResidencySpec>,
    gone: Seq<char>,
    kept: Seq<char>,
)
    requires
        start.wf(),
        start.are_owed(bytes, answers),
        ordered_map::has_key(start.entries, gone),
        !ordered_map::has_key(start.after_drops(answers).entries, gone),
        ordered_map::has_key(start.after_drops(answers).entries, kept),
    ensures
        ordered_map::value_of(start.entries, gone)->0.touched() <= ordered_map::value_of(
            start.entries,
            kept,
        )->0.touched(),
    decreases answers.len(),
{
    if answers.len() > 0 {
        let fewer = answers.drop_last();
        let before = start.after_drops(fewer);
        let i = lemma_last_drop(start, bytes, answers);
        lemma_drops_only_remove(start, bytes, fewer, gone);
        lemma_drops_only_remove(start, bytes, fewer, kept);
        lemma_drops_only_remove(start, bytes, answers, kept);
        ordered_map::lemma_position(before.entries, i);
        ordered_map::removal_changes_one_key(before.entries, before.victim().0@, gone);
        ordered_map::removal_changes_one_key(before.entries, before.victim().0@, kept);
        if ordered_map::has_key(before.entries, gone) {
            let p = ordered_map::position_of(before.entries, kept);
            assert(before.entries[p].0@ == kept);
            assert(lru::is_evictable(before.entries, None, p));
        } else {
            the_least_recent_go_first(start, bytes, fewer, gone, kept);
        }
    }
}

/// Answering from the cache keeps what is resident: every key holds the allocation that it held.
pub proof fn a_hit_keeps_what_is_resident<A: ResidentAllocation + ?Sized>(
    before: ResidencyModel<A>,
    spec: ResidencySpec,
    after: ResidencyModel<A>,
    key: Seq<char>,
)
    requires
        before.wf(),
        after.wf(),
        ordered_map::has_key(before.entries, spec.key@),
        before.hit(spec, after),
    ensures
        ordered_map::has_key(after.entries, key) == ordered_map::has_key(before.entries, key),
        ordered_map::has_key(before.entries, key) ==> after.allocation(key)
            == before.allocation(key),
{
    let i = ordered_map::position_of(before.entries, spec.key@);
    assert(before.entries[i].0@ == spec.key@);
    let (name, value) = after.entries[i];
    assert(after.entries == before.entries.update(i, (name, value)));
    ordered_map::insertion_changes_one_key(before.entries, name, value, after.entries, key);
}

/// Whether every allocation reports the same spec whenever it is asked: the one that `spec_of`
/// gives for it.
pub open spec fn are_steady<A: ResidentAllocation + ?Sized>(
    spec_of: spec_fn(Arc<A>) -> ResidencySpec,
) -> bool {
    forall|allocation: Arc<A>, answer: ResidencySpec| #[trigger]
        can_report(allocation, answer) ==> {
            &&& answer.key@ == spec_of(allocation).key@
            &&& answer.generation == spec_of(allocation).generation
            &&& answer.device_index == spec_of(allocation).device_index
            &&& answer.bytes == spec_of(allocation).bytes
        }
}

/// The bytes of all allocations together.
pub open spec fn held_bytes<A: ResidentAllocation + ?Sized>(
    entries: Seq<(ResidencyKey, ResidentEntry<A>)>,
    spec_of: spec_fn(Arc<A>) -> ResidencySpec,
) -> nat
    decreases entries.len(),
{
    if entries.len() == 0 {
        0
    } else {
        held_bytes(entries.drop_last(), spec_of) + spec_of(
            entries.last().1.allocation(),
        ).bytes as nat
    }
}

proof fn lemma_held_bytes_of_remove<A: ResidentAllocation + ?Sized>(
    entries: Seq<(ResidencyKey, ResidentEntry<A>)>,
    spec_of: spec_fn(Arc<A>) -> ResidencySpec,
    i: int,
)
    requires
        0 <= i < entries.len(),
    ensures
        held_bytes(entries.remove(i), spec_of) + spec_of(entries[i].1.allocation()).bytes
            == held_bytes(entries, spec_of),
    decreases entries.len(),
{
    if i == entries.len() - 1 {
        assert(entries.remove(i) =~= entries.drop_last());
    } else {
        lemma_held_bytes_of_remove(entries.drop_last(), spec_of, i);
        assert(entries.remove(i).drop_last() =~= entries.drop_last().remove(i));
    }
}

/// Whether a cache counts exactly the bytes of the allocations that it holds.
pub open spec fn is_accounted<A: ResidentAllocation + ?Sized>(
    state: ResidencyModel<A>,
    spec_of: spec_fn(Arc<A>) -> ResidencySpec,
) -> bool {
    state.resident_bytes == held_bytes(state.entries, spec_of)
}

/// Where allocations keep to what they report, the bytes that are counted stay those that are
/// held when one is let go.
pub proof fn letting_go_keeps_the_account<A: ResidentAllocation + ?Sized>(
    before: ResidencyModel<A>,
    spec_of: spec_fn(Arc<A>) -> ResidencySpec,
    key: Seq<char>,
    answer: ResidencySpec,
)
    requires
        before.wf(),
        are_steady(spec_of),
        is_accounted(before, spec_of),
        ordered_map::has_key(before.entries, key),
        can_report(before.allocation(key), answer),
    ensures
        is_accounted(before.dropped(key, answer.bytes), spec_of),
{
    let i = ordered_map::position_of(before.entries, key);
    assert(before.entries[i].0@ == key);
    ordered_map::lemma_position(before.entries, i);
    lemma_held_bytes_of_remove(before.entries, spec_of, i);
}

/// The same when one is answered from the cache.
pub proof fn a_hit_keeps_the_account<A: ResidentAllocation + ?Sized>(
    before: ResidencyModel<A>,
    spec_of: spec_fn(Arc<A>) -> ResidencySpec,
    spec: ResidencySpec,
    after: ResidencyModel<A>,
)
    requires
        is_accounted(before, spec_of),
        ordered_map::has_key(before.entries, spec.key@),
        before.hit(spec, after),
    ensures
        is_accounted(after, spec_of),
{
    let i = ordered_map::position_of(before.entries, spec.key@);
    assert(before.entries[i].0@ == spec.key@);
    lemma_held_bytes_of_remove(before.entries, spec_of, i);
    lemma_held_bytes_of_remove(after.entries, spec_of, i);
    assert(after.entries.remove(i) =~= before.entries.remove(i));
}

/// The same when one is taken in.
pub proof fn taking_in_keeps_the_account<A: ResidentAllocation + ?Sized>(
    before: ResidencyModel<A>,
    spec_of: spec_fn(Arc<A>) -> ResidencySpec,
    spec: ResidencySpec,
    allocation: Arc<A>,
    after: ResidencyModel<A>,
)
    requires
        is_accounted(before, spec_of),
        before.has_room_for(spec),
        before.admitted(spec, allocation, after),
        spec_of(allocation).bytes == spec.bytes,
        after.wf(),
    ensures
        is_accounted(after, spec_of),
{
    let entry = ordered_map::value_of(after.entries, spec.key@)->0;
    let i = choose|i: int|
        0 <= i <= before.entries.len() && after.entries == #[trigger] before.entries.insert(
            i,
            (spec.key, entry),
        );
    lemma_held_bytes_of_remove(after.entries, spec_of, i);
    assert(after.entries.remove(i) =~= before.entries);
}

/// The same of a miss. And room is always made then: nothing that fits the capacity is refused.
pub proof fn a_miss_keeps_the_account_and_makes_room<A: ResidentAllocation + ?Sized>(
    before: ResidencyModel<A>,
    spec_of: spec_fn(Arc<A>) -> ResidencySpec,
    spec: ResidencySpec,
    room: ResidencyModel<A>,
)
    requires
        before.wf(),
        are_steady(spec_of),
        is_accounted(before, spec_of),
        spec.bytes <= before.capacity,
        before.can_miss(spec, room),
    ensures
        is_accounted(room, spec_of),
        room.has_room_for(spec),
{
    let (stale, answers) = choose|stale: ResidencySpec, answers: Seq<ResidencySpec>| #[trigger]
        before.prepared(spec, stale, answers, room);
    let start = before.missed(spec.key@, stale.bytes);
    if ordered_map::has_key(before.entries, spec.key@) {
        letting_go_keeps_the_account(before, spec_of, spec.key@, stale);
        let q = ordered_map::position_of(before.entries, spec.key@);
        assert(before.entries[q].0@ == spec.key@);
        ordered_map::lemma_remove(before.entries, q);
    }
    lemma_drops_keep_the_account(start, spec_of, spec.bytes, answers);
    a_miss_only_removes(before, spec, room, spec.key@);
}

proof fn lemma_drops_keep_the_account<A: ResidentAllocation + ?Sized>(
    start: ResidencyModel<A>,
    spec_of: spec_fn(Arc<A>) -> ResidencySpec,
    bytes: u64,
    answers: Seq<ResidencySpec>,
)
    requires
        start.wf(),
        are_steady(spec_of),
        is_accounted(start, spec_of),
        start.are_owed(bytes, answers),
    ensures
        is_accounted(start.after_drops(answers), spec_of),
    decreases answers.len(),
{
    if answers.len() > 0 {
        let fewer = answers.drop_last();
        let before = start.after_drops(fewer);
        let i = lemma_last_drop(start, bytes, answers);
        lemma_drops_keep_the_account(start, spec_of, bytes, fewer);
        lemma_drops_only_remove(start, bytes, fewer, before.victim().0@);
        ordered_map::lemma_position(before.entries, i);
        letting_go_keeps_the_account(before, spec_of, before.victim().0@, answers.last());
    }
}

/// Where allocations keep to what they report, what was taken in is answered from the cache the
/// next time it is asked for: it cannot be missed.
pub proof fn a_resource_taken_in_is_resident<A: ResidentAllocation + ?Sized>(
    before: ResidencyModel<A>,
    spec_of: spec_fn(Arc<A>) -> ResidencySpec,
    spec: ResidencySpec,
    allocation: Arc<A>,
    after: ResidencyModel<A>,
    later: ResidencyModel<A>,
)
    requires
        are_steady(spec_of),
        spec_of(allocation).key@ == spec.key@,
        spec_of(allocation).generation == spec.generation,
        spec_of(allocation).device_index == spec.device_index,
        spec_of(allocation).bytes == spec.bytes,
        before.admitted(spec, allocation, after),
    ensures
        ordered_map::has_key(after.entries, spec.key@),
        after.allocation(spec.key@) == allocation,
        !after.can_miss(spec, later),
{
}

/// Where allocations keep to what they report, a resource that is asked for under another
/// generation, on another device or in another size than the resident one is never answered from
/// the cache.
pub proof fn a_changed_spec_is_not_resident<A: ResidentAllocation + ?Sized>(
    state: ResidencyModel<A>,
    spec_of: spec_fn(Arc<A>) -> ResidencySpec,
    changed: ResidencySpec,
)
    requires
        are_steady(spec_of),
        ({
            let resident = spec_of(state.allocation(changed.key@));
            ||| resident.key@ != changed.key@
            ||| resident.generation != changed.generation
            ||| resident.device_index != changed.device_index
            ||| resident.bytes != changed.bytes
        }),
    ensures
        !state.can_hit(changed),
{
}

/// Where allocations keep to what they report, an answer from the cache is an allocation of the
/// key, the generation, the device and the size that were asked for.
pub proof fn a_hit_is_what_was_asked_for<A: ResidentAllocation + ?Sized>(
    state: ResidencyModel<A>,
    spec_of: spec_fn(Arc<A>) -> ResidencySpec,
    spec: ResidencySpec,
)
    requires
        are_steady(spec_of),
        state.can_hit(spec),
    ensures
        ordered_map::has_key(state.entries, spec.key@),
        spec_of(state.allocation(spec.key@)).key@ == spec.key@,
        spec_of(state.allocation(spec.key@)).generation == spec.generation,
        spec_of(state.allocation(spec.key@)).device_index == spec.device_index,
        spec_of(state.allocation(spec.key@)).bytes == spec.bytes,
{
}

/// Whatever allocations report, one that is answered from the cache reported just what was asked
/// for, field by field.
pub proof fn a_hit_reported_what_was_asked_for<A: ResidentAllocation + ?Sized>(
    state: ResidencyModel<A>,
    spec: ResidencySpec,
) -> (answer: ResidencySpec)
    requires
        state.can_hit(spec),
    ensures
        can_report(state.allocation(spec.key@), answer),
        answer.key@ == spec.key@,
        answer.generation == spec.generation,
        answer.device_index == spec.device_index,
        answer.bytes == spec.bytes,
{
    choose|answer: ResidencySpec| #[trigger]
        can_report(state.allocation(spec.key@), answer) && same_spec(answer, spec)
}

/// A resource that is missed though its key is resident reported a field that is not as it was
/// asked for.
pub proof fn a_missed_resource_reported_something_else<A: ResidentAllocation + ?Sized>(
    state: ResidencyModel<A>,
    spec: ResidencySpec,
    after: ResidencyModel<A>,
) -> (answer: ResidencySpec)
    requires
        ordered_map::has_key(state.entries, spec.key@),
        state.can_miss(spec, after),
    ensures
        can_report(state.allocation(spec.key@), answer),
        answer.key@ != spec.key@ || answer.generation != spec.generation || answer.device_index
            != spec.device_index || answer.bytes != spec.bytes,
{
    choose|answer: ResidencySpec| #[trigger]
        can_report(state.allocation(spec.key@), answer) && !same_spec(answer, spec)
}

/// A provider's allocation is handed out, and taken in, if and only if it reported just what was
/// asked for, field by field. Otherwise nothing is taken in.
pub proof fn an_opened_resource_is_what_was_asked_for<A: ResidentAllocation + ?Sized>(
    room: ResidencyModel<A>,
    spec: ResidencySpec,
    allocation: Arc<A>,
    reported: ResidencySpec,
    returned: ResidencySpec,
    result: Result<Arc<A>, ResidencyError>,
    after: ResidencyModel<A>,
)
    requires
        room.resident_bytes + spec.bytes <= u64::MAX,
        room.opened(
            spec,
            Ok::<_, ResidencyError>(allocation),
            reported,
            returned,
            result,
            after,
        ),
    ensures
        can_report(allocation, reported),
        result is Ok <==> reported.key@ == spec.key@ && reported.generation == spec.generation
            && reported.device_index == spec.device_index && reported.bytes == spec.bytes,
        result is Ok ==> result->Ok_0 == allocation && ordered_map::has_key(
            after.entries,
            spec.key@,
        ) && after.allocation(spec.key@) == allocation && after.resident_bytes
            == room.resident_bytes + spec.bytes,
        result is Err ==> after == room && result->Err_0 == (ResidencyError::ProviderContract {
            requested: spec,
            returned,
        }),
{
}

/// An answer from the cache counts one hit and changes neither another counter nor the bytes.
pub proof fn a_hit_is_counted<A: ResidentAllocation + ?Sized>(
    before: ResidencyModel<A>,
    spec: ResidencySpec,
    after: ResidencyModel<A>,
)
    requires
        before.hit(spec, after),
        before.hits < u64::MAX,
    ensures
        after.hits == before.hits + 1,
        after.misses == before.misses,
        after.evictions == before.evictions,
        after.resident_bytes == before.resident_bytes,
        after.capacity == before.capacity,
        after.entries.len() == before.entries.len(),
{
}

/// A miss counts one miss, and one eviction for every resource that goes.
pub proof fn a_miss_is_counted<A: ResidentAllocation + ?Sized>(
    before: ResidencyModel<A>,
    spec: ResidencySpec,
    room: ResidencyModel<A>,
)
    requires
        before.wf(),
        before.can_miss(spec, room),
        before.misses < u64::MAX,
        before.evictions + before.entries.len() <= u64::MAX,
    ensures
        room.misses == before.misses + 1,
        room.hits == before.hits,
        room.evictions - before.evictions == before.entries.len() - room.entries.len(),
        room.resident_bytes <= before.resident_bytes,
{
    let (stale, answers) = choose|stale: ResidencySpec, answers: Seq<ResidencySpec>| #[trigger]
        before.prepared(spec, stale, answers, room);
    let start = before.missed(spec.key@, stale.bytes);
    if ordered_map::has_key(before.entries, spec.key@) {
        let q = ordered_map::position_of(before.entries, spec.key@);
        assert(before.entries[q].0@ == spec.key@);
        ordered_map::lemma_position(before.entries, q);
        ordered_map::lemma_remove(before.entries, q);
    }
    lemma_drops_are_counted(start, spec.bytes, answers);
}

proof fn lemma_drops_are_counted<A: ResidentAllocation + ?Sized>(
    start: ResidencyModel<A>,
    bytes: u64,
    answers: Seq<ResidencySpec>,
)
    requires
        start.wf(),
        start.are_owed(bytes, answers),
        start.evictions + start.entries.len() <= u64::MAX,
    ensures
        ({
            let after = start.after_drops(answers);
            &&& after.misses == start.misses
            &&& after.hits == start.hits
            &&& after.evictions - start.evictions == start.entries.len() - after.entries.len()
            &&& after.resident_bytes <= start.resident_bytes
        }),
    decreases answers.len(),
{
    if answers.len() > 0 {
        let fewer = answers.drop_last();
        let before = start.after_drops(fewer);
        let i = lemma_last_drop(start, bytes, answers);
        lemma_drops_are_counted(start, bytes, fewer);
        lemma_drops_only_remove(start, bytes, fewer, before.victim().0@);
        ordered_map::lemma_position(before.entries, i);
        ordered_map::lemma_remove(before.entries, i);
    }
}

/// Nothing goes while there is room: where what is asked for fits once the stale resource under
/// its key has gone, every other resource stays.
pub proof fn nothing_goes_while_there_is_room<A: ResidentAllocation + ?Sized>(
    before: ResidencyModel<A>,
    spec: ResidencySpec,
    room: ResidencyModel<A>,
    key: Seq<char>,
)
    requires
        before.wf(),
        before.can_miss(spec, room),
        before.resident_bytes + spec.bytes <= before.capacity,
        key != spec.key@,
        ordered_map::has_key(before.entries, key),
    ensures
        ordered_map::has_key(room.entries, key),
{
    let (stale, answers) = choose|stale: ResidencySpec, answers: Seq<ResidencySpec>| #[trigger]
        before.prepared(spec, stale, answers, room);
    let start = before.missed(spec.key@, stale.bytes);
    ordered_map::removal_changes_one_key(before.entries, spec.key@, key);
    if answers.len() > 0 {
        assert(start.is_owed(spec.bytes, answers, 0));
        assert(answers.take(0) =~= Seq::<ResidencySpec>::empty());
        assert(start.after_drops(answers.take(0)) == start);
    }
}

/// Of resources that were last touched at the same time, the one with the first key goes first.
pub proof fn ties_go_by_the_key<A: ResidentAllocation + ?Sized>(
    start: ResidencyModel<A>,
    bytes: u64,
    answers: Seq<ResidencySpec>,
    gone: Seq<char>,
    kept: Seq<char>,
)
    requires
        start.wf(),
        start.are_owed(bytes, answers),
        ordered_map::has_key(start.entries, gone),
        !ordered_map::has_key(start.after_drops(answers).entries, gone),
        ordered_map::has_key(start.after_drops(answers).entries, kept),
    ensures
        ordered_map::value_of(start.entries, gone)->0.touched() < ordered_map::value_of(
            start.entries,
            kept,
        )->0.touched() || text::text_before(gone, kept),
    decreases answers.len(),
{
    if answers.len() > 0 {
        let fewer = answers.drop_last();
        let before = start.after_drops(fewer);
        let i = lemma_last_drop(start, bytes, answers);
        lemma_drops_only_remove(start, bytes, fewer, gone);
        lemma_drops_only_remove(start, bytes, fewer, kept);
        lemma_drops_only_remove(start, bytes, answers, kept);
        ordered_map::lemma_position(before.entries, i);
        ordered_map::removal_changes_one_key(before.entries, before.victim().0@, gone);
        ordered_map::removal_changes_one_key(before.entries, before.victim().0@, kept);
        if ordered_map::has_key(before.entries, gone) {
            let p = ordered_map::position_of(before.entries, kept);
            assert(before.entries[p].0@ == kept);
            assert(lru::is_evictable(before.entries, None, p));
            assert(p != i);
        } else {
            ties_go_by_the_key(start, bytes, fewer, gone, kept);
        }
    }
}

/// Letting one resource go: it is counted, the bytes that it reported are free again, and nothing
/// else changes.
pub proof fn letting_go_is_counted<A: ResidentAllocation + ?Sized>(
    before: ResidencyModel<A>,
    key: Seq<char>,
    bytes: u64,
    other: Seq<char>,
)
    requires
        before.wf(),
        ordered_map::has_key(before.entries, key),
    ensures
        ({
            let after = before.dropped(key, bytes);
            &&& !ordered_map::has_key(after.entries, key)
            &&& after.entries.len() == before.entries.len() - 1
            &&& other != key ==> ordered_map::value_of(after.entries, other)
                == ordered_map::value_of(before.entries, other)
            &&& bytes <= before.resident_bytes ==> after.resident_bytes == before.resident_bytes
                - bytes
            &&& bytes > before.resident_bytes ==> after.resident_bytes == 0
            &&& before.evictions < 0xffff_ffff_ffff_ffff ==> after.evictions == before.evictions + 1
            &&& before.evictions == 0xffff_ffff_ffff_ffff ==> after.evictions == before.evictions
            &&& after.hits == before.hits
            &&& after.misses == before.misses
            &&& after.clock == before.clock
            &&& after.capacity == before.capacity
        }),
{
    let p = ordered_map::position_of(before.entries, key);
    assert(before.entries[p].0@ == key);
    ordered_map::lemma_position(before.entries, p);
    ordered_map::removal_changes_one_key(before.entries, key, key);
    ordered_map::removal_changes_one_key(before.entries, key, other);
}

} // verus!
