//! Capacity-bounded bookkeeping of key/value blocks, layered on durable residency keys.
//!
//! No native handle is stored here. The allocations stay with a residency provider.

use crate::lru;
use crate::lru::{Touched, Weighed};
use crate::ordered_map;
use crate::ordered_map::{OrderedKey, OrderedMap};
use crate::residency::ResidencyKey;
use crate::text;
use vstd::prelude::*;
use vstd::string::*;

verus! {

/// One layer of one sequence.
#[derive(Debug, Clone, Copy, PartialEq, Eq, PartialOrd, Ord, Hash, Structural)]
pub struct KvCacheKey {
    pub sequence_id: u64,
    pub layer: u32,
}

impl View for KvCacheKey {
    type V = KvCacheKey;

    open spec fn view(&self) -> KvCacheKey {
        *self
    }
}

impl OrderedKey for KvCacheKey {
    open spec fn before(a: KvCacheKey, b: KvCacheKey) -> bool {
        a.sequence_id < b.sequence_id || a.sequence_id == b.sequence_id && a.layer < b.layer
    }

    proof fn before_is_asymmetric(a: KvCacheKey, b: KvCacheKey) {
    }

    proof fn before_is_transitive(a: KvCacheKey, b: KvCacheKey, c: KvCacheKey) {
    }

    proof fn before_is_total(a: KvCacheKey, b: KvCacheKey) {
    }

    fn is_before(&self, other: &Self) -> (r: bool) {
        self.sequence_id < other.sequence_id || self.sequence_id == other.sequence_id && self.layer
            < other.layer
    }
}

/// A run of tokens with the resources that hold their keys and values.
#[derive(Debug, PartialEq, Eq)]
pub struct KvBlock {
    pub token_start: u64,
    pub token_count: u32,
    pub key_resource: ResidencyKey,
    pub value_resource: ResidencyKey,
    /// The bytes of both resources together.
    pub bytes: u64,
}

impl Clone for KvBlock {
    fn clone(&self) -> (r: Self)
        ensures
            r == *self,
    {
        KvBlock {
            token_start: self.token_start,
            token_count: self.token_count,
            key_resource: self.key_resource.clone(),
            value_resource: self.value_resource.clone(),
            bytes: self.bytes,
        }
    }
}

impl KvBlock {
    /// The token after the last one of the block.
    pub open spec fn end(&self) -> int {
        self.token_start + self.token_count
    }

    /// Why the block cannot be stored anywhere.
    pub open spec fn defect(&self) -> Option<KvCacheError> {
        if self.token_count == 0 || self.bytes == 0 {
            Some(KvCacheError::InvalidBlock)
        } else if self.end() > u64::MAX {
            Some(KvCacheError::TokenRangeOverflow)
        } else {
            None
        }
    }

    pub fn validate(&self) -> (r: Result<(), KvCacheError>)
        ensures
            match r {
                Ok(_) => self.defect() is None,
                Err(error) => self.defect() == Some(error),
            },
    {
        if self.token_count == 0 || self.bytes == 0 {
            return Err(KvCacheError::InvalidBlock);
        }
        match self.token_end() {
            Ok(_) => Ok(()),
            Err(error) => Err(error),
        }
    }

    pub fn token_end(&self) -> (r: Result<u64, KvCacheError>)
        ensures
            match r {
                Ok(end) => end == self.end(),
                Err(error) => self.end() > u64::MAX && error == KvCacheError::TokenRangeOverflow,
            },
    {
        match self.token_start.checked_add(self.token_count as u64) {
            Some(end) => Ok(end),
            None => Err(KvCacheError::TokenRangeOverflow),
        }
    }
}

/// The bytes of all blocks together.
pub open spec fn block_bytes(blocks: Seq<KvBlock>) -> nat
    decreases blocks.len(),
{
    if blocks.len() == 0 {
        0
    } else {
        block_bytes(blocks.drop_last()) + blocks.last().bytes as nat
    }
}

/// Where the next block has to start: after the last one, or at the first token.
pub open spec fn next_token(blocks: Seq<KvBlock>) -> int {
    if blocks.len() == 0 {
        0
    } else {
        blocks.last().end()
    }
}

/// Blocks that cover their tokens without a gap or an overlap, from the first token on.
pub open spec fn is_contiguous(blocks: Seq<KvBlock>) -> bool {
    &&& forall|i: int| #![trigger blocks[i]] 0 <= i < blocks.len() ==> blocks[i].defect() is None
    &&& blocks.len() > 0 ==> blocks[0].token_start == 0
    &&& forall|i: int, j: int|
        #![trigger blocks[i], blocks[j]]
        0 <= i && j == i + 1 && j < blocks.len() ==> blocks[j].token_start == blocks[i].end()
}

/// The blocks of one key, their bytes and when they were last used.
#[derive(Debug, Clone, PartialEq, Eq)]
pub struct KvEntry {
    blocks: Vec<KvBlock>,
    bytes: u64,
    last_touch: u64,
}

impl KvEntry {
    pub closed spec fn blocks(&self) -> Seq<KvBlock> {
        self.blocks@
    }

    pub open spec fn wf(&self) -> bool {
        &&& self.blocks().len() > 0
        &&& is_contiguous(self.blocks())
        &&& self.weight() == block_bytes(self.blocks())
    }
}

impl Touched for KvEntry {
    closed spec fn touched(&self) -> u64 {
        self.last_touch
    }

    fn last_touched(&self) -> (r: u64) {
        self.last_touch
    }
}

impl Weighed for KvEntry {
    closed spec fn weight(&self) -> u64 {
        self.bytes
    }

    fn current_weight(&self) -> (r: u64) {
        self.bytes
    }
}

/// The blocks of one key, as the cache shows them.
#[derive(Debug, Clone, PartialEq, Eq)]
pub struct KvCacheView {
    pub key: KvCacheKey,
    pub blocks: Vec<KvBlock>,
    pub bytes: u64,
    pub tokens: u64,
}

#[derive(Debug, Clone, Copy, PartialEq, Eq, Structural)]
pub struct KvCacheStats {
    pub entries: usize,
    pub blocks: usize,
    pub bytes: u64,
    pub evictions: u64,
}

impl Default for KvCacheStats {
    fn default() -> (r: Self)
        ensures
            r == (KvCacheStats { entries: 0, blocks: 0, bytes: 0, evictions: 0 }),
    {
        KvCacheStats { entries: 0, blocks: 0, bytes: 0, evictions: 0 }
    }
}

#[derive(Debug, Clone, Copy, PartialEq, Eq, Structural)]
pub enum KvCacheError {
    ZeroCapacity,
    InvalidBlock,
    TokenRangeOverflow,
    NonContiguous { expected_start: u64, actual_start: u64 },
    SizeOverflow,
    CapacityExceeded { requested: u64, capacity: u64 },
}

impl KvCacheError {
    /// The text of the error.
    pub open spec fn text(self) -> Seq<char> {
        match self {
            KvCacheError::ZeroCapacity => "KV-cache capacity must be non-zero"@,
            KvCacheError::InvalidBlock => {
                "KV block must have non-zero token count and byte size"@
            },
            KvCacheError::TokenRangeOverflow => "KV token range overflow"@,
            KvCacheError::NonContiguous { expected_start, actual_start } => {
                "KV cache append is not contiguous: expected token "@
                    + text::decimal(expected_start as nat) + ", got "@
                    + text::decimal(actual_start as nat)
            },
            KvCacheError::SizeOverflow => "KV-cache size arithmetic overflow"@,
            KvCacheError::CapacityExceeded { requested, capacity } => {
                "KV-cache capacity exceeded: requested "@
                    + text::decimal(requested as nat) + ", capacity "@
                    + text::decimal(capacity as nat)
            },
        }
    }

    pub fn message(self) -> (r: String)
        ensures
            r@ == self.text(),
    {
        match self {
            KvCacheError::ZeroCapacity => "KV-cache capacity must be non-zero".to_owned(),
            KvCacheError::InvalidBlock => {
                "KV block must have non-zero token count and byte size".to_owned()
            },
            KvCacheError::TokenRangeOverflow => "KV token range overflow".to_owned(),
            KvCacheError::NonContiguous { expected_start, actual_start } => {
                let mut r = "KV cache append is not contiguous: expected token ".to_owned();
                text::append_decimal(&mut r, expected_start as u64);
                r.append(", got ");
                text::append_decimal(&mut r, actual_start as u64);
                r
            },
            KvCacheError::SizeOverflow => "KV-cache size arithmetic overflow".to_owned(),
            KvCacheError::CapacityExceeded { requested, capacity } => {
                let mut r = "KV-cache capacity exceeded: requested ".to_owned();
                text::append_decimal(&mut r, requested as u64);
                r.append(", capacity ");
                text::append_decimal(&mut r, capacity as u64);
                r
            },
        }
    }
}

/// What a cache holds: its capacity, its entries in the order of their keys, and its counters.
pub struct KvCacheModel {
    pub capacity: u64,
    pub entries: Seq<(KvCacheKey, KvEntry)>,
    pub clock: u64,
    pub evictions: u64,
}

impl KvCacheModel {
    /// What every cache keeps: entries in order, each with contiguous blocks from its first token
    /// on, and never more bytes than the capacity.
    pub open spec fn wf(self) -> bool {
        &&& self.capacity > 0
        &&& ordered_map::keys_increase(self.entries)
        &&& forall|i: int|
            #![trigger self.entries[i]]
            0 <= i < self.entries.len() ==> self.entries[i].1.wf()
        &&& lru::total_weight(self.entries) <= self.capacity
    }

    /// The blocks stored under a key.
    pub open spec fn blocks(self, key: KvCacheKey) -> Seq<KvBlock> {
        match ordered_map::value_of(self.entries, key) {
            Some(entry) => entry.blocks(),
            None => Seq::empty(),
        }
    }

    /// Why `block` cannot be appended under `key`.
    pub open spec fn append_refusal(self, key: KvCacheKey, block: KvBlock) -> Option<KvCacheError> {
        let blocks = self.blocks(key);
        let size = block_bytes(blocks) + block.bytes;
        if block.defect() is Some {
            block.defect()
        } else if block.bytes > self.capacity {
            Some(
                KvCacheError::CapacityExceeded {
                    requested: block.bytes,
                    capacity: self.capacity,
                },
            )
        } else if block.token_start != next_token(blocks) {
            Some(
                KvCacheError::NonContiguous {
                    expected_start: next_token(blocks) as u64,
                    actual_start: block.token_start,
                },
            )
        } else if size > u64::MAX {
            Some(KvCacheError::SizeOverflow)
        } else if size > self.capacity {
            Some(
                KvCacheError::CapacityExceeded {
                    requested: size as u64,
                    capacity: self.capacity,
                },
            )
        } else {
            None
        }
    }

    /// What stays when room is made for `additional` bytes under `key`.
    pub open spec fn entries_with_room(self, key: KvCacheKey, additional: u64) -> Seq<
        (KvCacheKey, KvEntry),
    > {
        lru::evicted(self.entries, Some(key), additional, self.capacity)
    }

    /// `after` is this state with `block` at the end of the blocks of `key`, the key used just now
    /// and the entries that had to make room gone.
    pub open spec fn appended(self, key: KvCacheKey, block: KvBlock, after: Self) -> bool {
        let kept = self.entries_with_room(key, block.bytes);
        let entry = ordered_map::value_of(after.entries, key)->0;
        &&& after.capacity == self.capacity
        &&& after.clock == lru::next_tick(self.clock)
        &&& after.evictions == lru::counted(self.evictions, self.entries.len() - kept.len())
        &&& ordered_map::has_key(after.entries, key)
        &&& ordered_map::inserted(kept, key, entry, after.entries)
        &&& entry.blocks() == self.blocks(key).push(block)
        &&& entry.touched() == after.clock
    }

    /// `after` is this state with the entry of `key` used just now.
    pub open spec fn viewed(self, key: KvCacheKey, after: Self) -> bool {
        let i = ordered_map::position_of(self.entries, key);
        &&& after.capacity == self.capacity
        &&& after.clock == lru::next_tick(self.clock)
        &&& after.evictions == self.evictions
        &&& if ordered_map::has_key(self.entries, key) {
            &&& after.entries.len() == self.entries.len()
            &&& after.entries == self.entries.update(i, after.entries[i])
            &&& after.entries[i].0 == key
            &&& after.entries[i].1.blocks() == self.entries[i].1.blocks()
            &&& after.entries[i].1.touched() == after.clock
        } else {
            after.entries == self.entries
        }
    }
}

/// A capacity-bounded cache of key/value blocks, least recently used first to go.
pub struct KvCache {
    capacity_bytes: u64,
    entries: OrderedMap<KvCacheKey, KvEntry>,
    bytes: u64,
    clock: u64,
    evictions: u64,
}

impl KvCache {
    /// What the cache holds.
    pub closed spec fn state(&self) -> KvCacheModel {
        KvCacheModel {
            capacity: self.capacity_bytes,
            entries: self.entries@,
            clock: self.clock,
            evictions: self.evictions,
        }
    }
}

proof fn lemma_block_bytes_push(blocks: Seq<KvBlock>, block: KvBlock)
    ensures
        block_bytes(blocks.push(block)) == block_bytes(blocks) + block.bytes,
{
    assert(blocks.push(block).drop_last() =~= blocks);
}

proof fn lemma_contiguous_push(blocks: Seq<KvBlock>, block: KvBlock)
    requires
        is_contiguous(blocks),
        block.defect() is None,
        block.token_start == next_token(blocks),
    ensures
        is_contiguous(blocks.push(block)),
{
    let more = blocks.push(block);
    assert forall|i: int|
        #![trigger more[i]]
        0 <= i < more.len() implies more[i].defect() is None by {
        if i < blocks.len() {
            assert(more[i] == blocks[i]);
        }
    }
    assert forall|i: int, j: int|
        #![trigger more[i], more[j]]
        0 <= i && j == i + 1 && j < more.len() implies more[j].token_start == more[i].end() by {
        assert(more[i] == blocks[i]);
        if j < blocks.len() {
            assert(more[j] == blocks[j]);
        }
    }
}

impl KvCache {
    pub closed spec fn wf(&self) -> bool {
        &&& self.state().wf()
        &&& self.bytes == lru::total_weight(self.state().entries)
    }

    /// What a well-formed cache shows.
    pub proof fn lemma_wf(&self)
        requires
            self.wf(),
        ensures
            self.state().wf(),
    {
    }

    /// An empty cache. Fails where the capacity is zero.
    pub fn new(capacity_bytes: u64) -> (r: Result<Self, KvCacheError>)
        ensures
            match r {
                Ok(cache) => {
                    &&& capacity_bytes > 0
                    &&& cache.wf()
                    &&& cache.state() == (KvCacheModel {
                        capacity: capacity_bytes,
                        entries: Seq::empty(),
                        clock: 0,
                        evictions: 0,
                    })
                },
                Err(error) => capacity_bytes == 0 && error == KvCacheError::ZeroCapacity,
            },
    {
        if capacity_bytes == 0 {
            return Err(KvCacheError::ZeroCapacity);
        }
        Ok(
            KvCache {
                capacity_bytes,
                entries: OrderedMap::new(),
                bytes: 0,
                clock: 0,
                evictions: 0,
            },
        )
    }

    /// Appends `block` to the blocks of `key`. Blocks of a key are contiguous; other keys make
    /// room where that is needed, the least recently used first. A refused block changes nothing.
    pub fn append(&mut self, key: KvCacheKey, block: KvBlock) -> (r: Result<(), KvCacheError>)
        requires
            old(self).wf(),
        ensures
            final(self).wf(),
            match r {
                Ok(_) => {
                    &&& old(self).state().append_refusal(key, block) is None
                    &&& old(self).state().appended(key, block, final(self).state())
                },
                Err(error) => {
                    &&& old(self).state().append_refusal(key, block) == Some(error)
                    &&& final(self).state() == old(self).state()
                },
            },
    {
        match block.validate() {
            Ok(_) => {},
            Err(error) => {
                return Err(error);
            },
        }
        if block.bytes > self.capacity_bytes {
            return Err(
                KvCacheError::CapacityExceeded {
                    requested: block.bytes,
                    capacity: self.capacity_bytes,
                },
            );
        }
        let ghost before = self.state();
        let mut expected_start: u64 = 0;
        let mut current_bytes: u64 = 0;
        match self.entries.get(&key) {
            Some(entry) => {
                proof {
                    let i = ordered_map::position_of(before.entries, key);
                    assert(before.entries[i].1.wf());
                }
                let last = &entry.blocks[entry.blocks.len() - 1];
                assert(last.defect() is None);
                expected_start = last.token_start + last.token_count as u64;
                current_bytes = entry.bytes;
            },
            None => {},
        }
        assert(expected_start == next_token(before.blocks(key)));
        assert(current_bytes == block_bytes(before.blocks(key)));
        if block.token_start != expected_start {
            return Err(
                KvCacheError::NonContiguous { expected_start, actual_start: block.token_start },
            );
        }
        let new_bytes: u64 = match current_bytes.checked_add(block.bytes) {
            Some(total) => total,
            None => {
                return Err(KvCacheError::SizeOverflow);
            },
        };
        if new_bytes > self.capacity_bytes {
            return Err(
                KvCacheError::CapacityExceeded {
                    requested: new_bytes,
                    capacity: self.capacity_bytes,
                },
            );
        }
        let room = self.evict_for(key, block.bytes);
        let ghost kept = self.state().entries;
        proof {
            lru::eviction_makes_room(before.entries, Some(key), block.bytes, before.capacity);
        }
        assert(room is Ok);
        self.clock = lru::tick(self.clock);
        self.bytes = self.bytes + block.bytes;
        let touch: u64 = self.clock;
        proof {
            if ordered_map::has_key(before.entries, key) {
                lru::eviction_spares_the_protected(
                    before.entries,
                    key,
                    block.bytes,
                    before.capacity,
                );
            }
            if ordered_map::has_key(kept, key) {
                lru::eviction_only_removes(
                    before.entries,
                    Some(key),
                    block.bytes,
                    before.capacity,
                    key,
                );
            }
            lemma_contiguous_push(before.blocks(key), block);
            lemma_block_bytes_push(before.blocks(key), block);
        }
        match self.entries.find(&key) {
            Some(i) => {
                let ghost was = kept[i as int].1;
                proof {
                    assert(was.wf());
                    assert(was.blocks() == before.blocks(key));
                }
                let entry = self.entries.value_at_mut(i);
                entry.bytes = new_bytes;
                entry.blocks.push(block);
                entry.last_touch = touch;
                proof {
                    let now = self.state().entries[i as int];
                    assert(now.0 == key);
                    assert(self.state().entries == kept.update(i as int, now));
                    assert(now.1.blocks() == before.blocks(key).push(block));
                    ordered_map::lemma_update(kept, i as int, now.1);
                    lru::lemma_weight_of_update(kept, i as int, now);
                    ordered_map::lemma_position(self.state().entries, i as int);
                }
            },
            None => {
                let mut blocks: Vec<KvBlock> = Vec::new();
                blocks.push(block);
                let entry = KvEntry { blocks, bytes: new_bytes, last_touch: touch };
                proof {
                    assert(entry.blocks() =~= before.blocks(key).push(block));
                }
                self.entries.insert(key, entry);
                proof {
                    let i = choose|i: int|
                        0 <= i <= kept.len() && self.state().entries
                            == #[trigger] kept.insert(i, (key, entry));
                    assert(self.state().entries[i] == (key, entry));
                    lru::lemma_weight_of_insert(kept, i, (key, entry));
                    ordered_map::lemma_position(self.state().entries, i);
                    assert forall|j: int|
                        #![trigger self.state().entries[j]]
                        0 <= j < self.state().entries.len() implies self.state().entries[j].1.wf() by {
                        if j != i {
                            assert(self.state().entries[j] == kept[if j < i { j } else { j - 1 }]);
                        }
                    }
                }
            },
        }
        Ok(())
    }

    /// What is stored under `key`, which counts as a use of it.
    pub fn view(&mut self, key: KvCacheKey) -> (r: Result<Option<KvCacheView>, KvCacheError>)
        requires
            old(self).wf(),
        ensures
            final(self).wf(),
            old(self).state().viewed(key, final(self).state()),
            match r {
                Ok(Some(view)) => {
                    &&& ordered_map::has_key(old(self).state().entries, key)
                    &&& view.key == key
                    &&& view.blocks@ == old(self).state().blocks(key)
                    &&& view.bytes == block_bytes(old(self).state().blocks(key))
                    &&& view.tokens == next_token(old(self).state().blocks(key))
                },
                Ok(None) => !ordered_map::has_key(old(self).state().entries, key),
                Err(_) => false,
            },
    {
        let ghost before = self.state();
        self.clock = lru::tick(self.clock);
        let touch: u64 = self.clock;
        match self.entries.find(&key) {
            Some(i) => {
                let entry = self.entries.value_at_mut(i);
                entry.last_touch = touch;
                proof {
                    let now = self.state().entries[i as int];
                    assert(self.state().entries == before.entries.update(i as int, now));
                    assert(before.entries[i as int].1.wf());
                    ordered_map::lemma_update(before.entries, i as int, now.1);
                    lru::lemma_weight_of_update(before.entries, i as int, now);
                    ordered_map::lemma_position(before.entries, i as int);
                }
                let entry = self.entries.value_at(i);
                let last = &entry.blocks[entry.blocks.len() - 1];
                assert(last.defect() is None);
                let tokens: u64 = last.token_start + last.token_count as u64;
                let blocks = entry.blocks.clone();
                assert(blocks@ =~= entry.blocks@);
                Ok(Some(KvCacheView { key, blocks, bytes: entry.bytes, tokens }))
            },
            None => Ok(None),
        }
    }

    /// Forgets the blocks of `key`. Says whether there were any.
    pub fn remove(&mut self, key: KvCacheKey) -> (r: bool)
        requires
            old(self).wf(),
        ensures
            final(self).wf(),
            r == ordered_map::has_key(old(self).state().entries, key),
            final(self).state() == (KvCacheModel {
                entries: ordered_map::without(old(self).state().entries, key),
                ..old(self).state()
            }),
    {
        let ghost before = self.state();
        match self.entries.find(&key) {
            Some(i) => {
                proof {
                    lru::lemma_weight_of_remove(before.entries, i as int);
                }
                let (_, removed) = self.entries.remove_at(i);
                self.bytes = self.bytes - removed.bytes;
                true
            },
            None => false,
        }
    }

    /// Forgets everything.
    pub fn clear(&mut self)
        requires
            old(self).wf(),
        ensures
            final(self).wf(),
            final(self).state() == (KvCacheModel { entries: Seq::empty(), ..old(self).state() }),
    {
        self.entries.clear();
        self.bytes = 0;
    }

    /// How much is kept and how much has gone. The blocks can be counted wherever the capacity
    /// fits in a `usize`, since no block is without bytes.
    #[must_use]
    pub fn stats(&self) -> (r: KvCacheStats)
        requires
            self.wf(),
            self.state().capacity <= usize::MAX || block_count(self.state().entries) <= usize::MAX,
        ensures
            r.entries == self.state().entries.len(),
            r.blocks == block_count(self.state().entries),
            r.bytes == lru::total_weight(self.state().entries),
            r.evictions == self.state().evictions,
    {
        proof {
            blocks_are_no_more_than_bytes(self.state().entries);
        }
        let mut blocks: usize = 0;
        let mut i: usize = 0;
        while i < self.entries.len()
            invariant
                i <= self.entries@.len(),
                self.entries@ == self.state().entries,
                blocks == block_count(self.state().entries.take(i as int)),
                block_count(self.state().entries) <= usize::MAX,
            decreases self.entries@.len() - i,
        {
            proof {
                lemma_block_count_prefix(self.state().entries, i + 1);
                assert(self.state().entries.take(i + 1).drop_last()
                    =~= self.state().entries.take(i as int));
            }
            blocks = blocks + self.entries.value_at(i).blocks.len();
            i = i + 1;
        }
        assert(self.state().entries.take(i as int) =~= self.state().entries);
        KvCacheStats {
            entries: self.entries.len(),
            blocks,
            bytes: self.bytes,
            evictions: self.evictions,
        }
    }

    /// Makes room for `additional` bytes without touching `protected`.
    fn evict_for(&mut self, protected: KvCacheKey, additional: u64) -> (r: Result<
        (),
        KvCacheError,
    >)
        requires
            old(self).wf(),
        ensures
            final(self).wf(),
            final(self).state() == (KvCacheModel {
                entries: old(self).state().entries_with_room(protected, additional),
                evictions: lru::counted(
                    old(self).state().evictions,
                    old(self).state().entries.len() - final(self).state().entries.len(),
                ),
                ..old(self).state()
            }),
            match r {
                Ok(_) => lru::fits(
                    final(self).state().entries,
                    additional,
                    old(self).state().capacity,
                ),
                Err(error) => !lru::fits(
                    final(self).state().entries,
                    additional,
                    old(self).state().capacity,
                ) && error == (KvCacheError::CapacityExceeded {
                    requested: lru::counted(
                        additional,
                        lru::total_weight(final(self).state().entries) as int,
                    ),
                    capacity: old(self).state().capacity,
                }),
            },
    {
        let ghost before = self.state();
        let made = lru::evict(
            &mut self.entries,
            self.bytes,
            self.evictions,
            Some(protected),
            additional,
            self.capacity_bytes,
        );
        self.bytes = made.weight;
        self.evictions = made.evictions;
        proof {
            lru::eviction_keeps_order(before.entries, Some(protected), additional, before.capacity);
            assert forall|i: int|
                #![trigger self.state().entries[i]]
                0 <= i < self.state().entries.len() implies self.state().entries[i].1.wf() by {
                lru::eviction_keeps_members(
                    before.entries,
                    Some(protected),
                    additional,
                    before.capacity,
                    i,
                );
                let j = choose|j: int|
                    0 <= j < before.entries.len() && before.entries[j] == self.state().entries[i];
                assert(before.entries[j].1.wf());
            }
            lru::eviction_weighs_no_more(
                before.entries,
                Some(protected),
                additional,
                before.capacity,
            );
        }
        if made.fits {
            Ok(())
        } else {
            Err(
                KvCacheError::CapacityExceeded {
                    requested: additional.saturating_add(self.bytes),
                    capacity: self.capacity_bytes,
                },
            )
        }
    }
}

/// How many tokens all blocks hold together.
pub open spec fn token_count(blocks: Seq<KvBlock>) -> nat
    decreases blocks.len(),
{
    if blocks.len() == 0 {
        0
    } else {
        token_count(blocks.drop_last()) + blocks.last().token_count as nat
    }
}

/// The end of contiguous blocks is the number of their tokens: none is missing and none is
/// counted twice.
pub proof fn contiguous_blocks_count_each_token_once(blocks: Seq<KvBlock>)
    requires
        is_contiguous(blocks),
    ensures
        next_token(blocks) == token_count(blocks),
    decreases blocks.len(),
{
    if blocks.len() > 0 {
        let rest = blocks.drop_last();
        assert(is_contiguous(rest)) by {
            assert forall|i: int| #![trigger rest[i]] 0 <= i < rest.len() implies rest[
                i
            ].defect() is None by {
                assert(rest[i] == blocks[i]);
            }
            assert forall|i: int, j: int|
                #![trigger rest[i], rest[j]]
                0 <= i && j == i + 1 && j < rest.len() implies rest[j].token_start
                == rest[i].end() by {
                assert(rest[i] == blocks[i] && rest[j] == blocks[j]);
            }
        }
        contiguous_blocks_count_each_token_once(rest);
        if rest.len() > 0 {
            let i = blocks.len() - 2;
            assert(blocks[i + 1].token_start == blocks[i].end());
            assert(rest.last() == blocks[i]);
        } else {
            assert(blocks.last() == blocks[0]);
        }
    }
}

/// After an append the key holds its blocks with the new one behind them. Another key holds what
/// it held before, or nothing where it had to make room.
pub proof fn an_append_changes_no_other_blocks(
    before: KvCacheModel,
    key: KvCacheKey,
    block: KvBlock,
    after: KvCacheModel,
    other: KvCacheKey,
)
    requires
        before.wf(),
        after.wf(),
        before.appended(key, block, after),
    ensures
        after.blocks(key) == before.blocks(key).push(block),
        other != key && ordered_map::has_key(after.entries, other) ==> after.blocks(other)
            == before.blocks(other),
        lru::fits(before.entries, block.bytes, before.capacity) && other != key ==> after.blocks(
            other,
        ) == before.blocks(other),
{
    let kept = before.entries_with_room(key, block.bytes);
    let entry = ordered_map::value_of(after.entries, key)->0;
    lru::eviction_keeps_order(before.entries, Some(key), block.bytes, before.capacity);
    ordered_map::insertion_changes_one_key(kept, key, entry, after.entries, other);
    if other != key && ordered_map::has_key(after.entries, other) {
        lru::eviction_only_removes(before.entries, Some(key), block.bytes, before.capacity, other);
    }
}

/// Whether the clock has passed every use.
pub open spec fn clock_is_ahead(state: KvCacheModel) -> bool {
    forall|i: int|
        #![trigger state.entries[i]]
        0 <= i < state.entries.len() ==> state.entries[i].1.touched() <= state.clock
}

/// As long as the clock has not run through its whole range, what was used last is what was
/// touched last: an append touches its key after every other.
pub proof fn an_appended_key_is_the_most_recent(
    before: KvCacheModel,
    key: KvCacheKey,
    block: KvBlock,
    after: KvCacheModel,
)
    requires
        before.wf(),
        after.wf(),
        before.appended(key, block, after),
        clock_is_ahead(before),
        before.clock < u64::MAX,
    ensures
        clock_is_ahead(after),
        forall|i: int|
            #![trigger after.entries[i]]
            0 <= i < after.entries.len() && after.entries[i].0 != key
                ==> after.entries[i].1.touched() < ordered_map::value_of(
                after.entries,
                key,
            )->0.touched(),
{
    let entry = ordered_map::value_of(after.entries, key)->0;
    let kept = before.entries_with_room(key, block.bytes);
    lru::eviction_keeps_order(before.entries, Some(key), block.bytes, before.capacity);
    assert forall|i: int| #![trigger after.entries[i]] 0 <= i < after.entries.len() implies (
    after.entries[i].1.touched() <= after.clock && (after.entries[i].0 != key
        ==> after.entries[i].1.touched() < entry.touched())) by {
        let other = after.entries[i].0;
        ordered_map::lemma_position(after.entries, i);
        if other != key {
            ordered_map::insertion_changes_one_key(kept, key, entry, after.entries, other);
            lru::eviction_only_removes(
                before.entries,
                Some(key),
                block.bytes,
                before.capacity,
                other,
            );
            let p = ordered_map::position_of(before.entries, other);
            assert(before.entries[p].1.touched() <= before.clock);
        }
    }
}

/// The same of a look at a key that is there.
pub proof fn a_viewed_key_is_the_most_recent(
    before: KvCacheModel,
    key: KvCacheKey,
    after: KvCacheModel,
)
    requires
        before.wf(),
        after.wf(),
        ordered_map::has_key(before.entries, key),
        before.viewed(key, after),
        clock_is_ahead(before),
        before.clock < u64::MAX,
    ensures
        clock_is_ahead(after),
        after.blocks(key) == before.blocks(key),
        forall|i: int|
            #![trigger after.entries[i]]
            0 <= i < after.entries.len() && after.entries[i].0 != key
                ==> after.entries[i].1.touched() < ordered_map::value_of(
                after.entries,
                key,
            )->0.touched(),
{
    let p = ordered_map::position_of(before.entries, key);
    assert(before.entries[p].0@ == key);
    ordered_map::lemma_position(before.entries, p);
    ordered_map::lemma_position(after.entries, p);
    assert forall|i: int| #![trigger after.entries[i]] 0 <= i < after.entries.len() implies (
    after.entries[i].1.touched() <= after.clock && (after.entries[i].0 != key
        ==> after.entries[i].1.touched() < after.clock)) by {
        if i != p {
            assert(after.entries[i] == before.entries[i]);
        }
    }
}

/// Every block weighs something, so there are no more blocks than bytes.
pub proof fn blocks_are_no_more_than_bytes(entries: Seq<(KvCacheKey, KvEntry)>)
    requires
        forall|i: int| #![trigger entries[i]] 0 <= i < entries.len() ==> entries[i].1.wf(),
    ensures
        block_count(entries) <= lru::total_weight(entries),
    decreases entries.len(),
{
    if entries.len() > 0 {
        let rest = entries.drop_last();
        assert forall|i: int| #![trigger rest[i]] 0 <= i < rest.len() implies rest[i].1.wf() by {
            assert(rest[i] == entries[i]);
        }
        blocks_are_no_more_than_bytes(rest);
        let last = entries[entries.len() - 1];
        assert(last.1.wf());
        lemma_blocks_weigh_something(last.1.blocks());
    }
}

proof fn lemma_blocks_weigh_something(blocks: Seq<KvBlock>)
    requires
        forall|i: int| #![trigger blocks[i]] 0 <= i < blocks.len() ==> blocks[i].defect() is None,
    ensures
        blocks.len() <= block_bytes(blocks),
    decreases blocks.len(),
{
    if blocks.len() > 0 {
        let rest = blocks.drop_last();
        assert forall|i: int| #![trigger rest[i]] 0 <= i < rest.len() implies rest[
            i
        ].defect() is None by {
            assert(rest[i] == blocks[i]);
        }
        lemma_blocks_weigh_something(rest);
        assert(blocks[blocks.len() - 1].defect() is None);
    }
}

/// How many blocks all entries hold together.
pub open spec fn block_count(entries: Seq<(KvCacheKey, KvEntry)>) -> nat
    decreases entries.len(),
{
    if entries.len() == 0 {
        0
    } else {
        block_count(entries.drop_last()) + entries.last().1.blocks().len()
    }
}

proof fn lemma_block_count_prefix(entries: Seq<(KvCacheKey, KvEntry)>, n: int)
    requires
        0 <= n <= entries.len(),
    ensures
        block_count(entries.take(n)) <= block_count(entries),
    decreases entries.len(),
{
    if n == entries.len() {
        assert(entries.take(n) =~= entries);
    } else {
        lemma_block_count_prefix(entries.drop_last(), n);
        assert(entries.drop_last().take(n) =~= entries.take(n));
    }
}

/// A block is stored if and only if it has tokens and bytes, its tokens can be counted, it starts
/// where the blocks of its key end, or at the first token where there are none, and all blocks of
/// the key together fit the capacity.
pub proof fn a_block_is_stored_where_it_continues(
    state: KvCacheModel,
    key: KvCacheKey,
    block: KvBlock,
)
    requires
        state.wf(),
    ensures
        ({
            let blocks = state.blocks(key);
            let last = blocks[blocks.len() - 1];
            let refusal = state.append_refusal(key, block);
            &&& refusal is None <==> {
                &&& block.token_count > 0
                &&& block.bytes > 0
                &&& block.token_start + block.token_count <= 0xffff_ffff_ffff_ffff
                &&& blocks.len() == 0 ==> block.token_start == 0
                &&& blocks.len() > 0 ==> block.token_start == last.token_start + last.token_count
                &&& block_bytes(blocks) + block.bytes <= state.capacity
            }
            &&& refusal == Some(KvCacheError::InvalidBlock) <==> block.token_count == 0
                || block.bytes == 0
            &&& refusal matches Some(KvCacheError::NonContiguous { expected_start, actual_start })
                ==> actual_start == block.token_start && actual_start != expected_start && (
            blocks.len() == 0 ==> expected_start == 0) && (blocks.len() > 0 ==> expected_start
                == last.token_start + last.token_count)
            &&& refusal matches Some(KvCacheError::CapacityExceeded { requested, capacity })
                ==> capacity == state.capacity && requested > capacity
        }),
{
    let blocks = state.blocks(key);
    if blocks.len() > 0 {
        let p = ordered_map::position_of(state.entries, key);
        assert(state.entries[p].1.wf());
        assert(blocks[blocks.len() - 1].defect() is None);
    }
}

/// The bytes and the tokens of blocks are those of each of them together.
pub proof fn blocks_add_up(some: Seq<KvBlock>, more: Seq<KvBlock>)
    ensures
        block_bytes(Seq::<KvBlock>::empty()) == 0,
        token_count(Seq::<KvBlock>::empty()) == 0,
        more.len() == 1 ==> block_bytes(more) == more[0].bytes,
        more.len() == 1 ==> token_count(more) == more[0].token_count,
        block_bytes(some + more) == block_bytes(some) + block_bytes(more),
        token_count(some + more) == token_count(some) + token_count(more),
    decreases more.len(),
{
    if more.len() == 0 {
        assert(some + more =~= some);
    } else {
        blocks_add_up(some, more.drop_last());
        assert((some + more).drop_last() =~= some + more.drop_last());
        if more.len() == 1 {
            assert(more.drop_last() =~= Seq::<KvBlock>::empty());
        }
    }
}

/// Every block that a cache holds has tokens and bytes and starts just where the tokens of the
/// blocks before it end, counted from zero.
pub proof fn a_stored_block_starts_where_the_tokens_before_it_end(
    state: KvCacheModel,
    key: KvCacheKey,
    i: int,
)
    requires
        state.wf(),
        0 <= i < state.blocks(key).len(),
    ensures
        state.blocks(key)[i].token_count > 0,
        state.blocks(key)[i].bytes > 0,
        state.blocks(key)[i].token_start == token_count(state.blocks(key).take(i)),
{
    let blocks = state.blocks(key);
    let p = ordered_map::position_of(state.entries, key);
    assert(state.entries[p].1.wf());
    assert(blocks[i].defect() is None);
    let before = blocks.take(i);
    assert(is_contiguous(before)) by {
        assert forall|j: int| #![trigger before[j]] 0 <= j < before.len() implies before[
            j
        ].defect() is None by {
            assert(before[j] == blocks[j]);
        }
        assert forall|j: int, l: int|
            #![trigger before[j], before[l]]
            0 <= j && l == j + 1 && l < before.len() implies before[l].token_start
            == before[j].end() by {
            assert(before[j] == blocks[j] && before[l] == blocks[l]);
        }
    }
    contiguous_blocks_count_each_token_once(before);
    if i > 0 {
        assert(before.last() == blocks[i - 1]);
    }
}

/// An append counts one eviction for each key that had to make room, moves the clock by one, and
/// keeps the capacity.
pub proof fn an_append_counts_what_goes(
    before: KvCacheModel,
    key: KvCacheKey,
    block: KvBlock,
    after: KvCacheModel,
)
    requires
        before.wf(),
        after.wf(),
        before.appended(key, block, after),
        before.evictions + before.entries.len() <= u64::MAX,
        before.clock < u64::MAX,
    ensures
        after.clock == before.clock + 1,
        after.capacity == before.capacity,
        ordered_map::has_key(before.entries, key) ==> after.evictions - before.evictions
            == before.entries.len() - after.entries.len(),
        !ordered_map::has_key(before.entries, key) ==> after.evictions - before.evictions
            == before.entries.len() + 1 - after.entries.len(),
        lru::total_weight(after.entries) <= after.capacity,
{
    let kept = before.entries_with_room(key, block.bytes);
    let entry = ordered_map::value_of(after.entries, key)->0;
    lru::eviction_keeps_order(before.entries, Some(key), block.bytes, before.capacity);
    if ordered_map::has_key(before.entries, key) {
        lru::eviction_spares_the_protected(before.entries, key, block.bytes, before.capacity);
    } else if ordered_map::has_key(kept, key) {
        lru::eviction_only_removes(before.entries, Some(key), block.bytes, before.capacity, key);
    }
}

/// Blocks are counted entry by entry: none in no entries, and the blocks of two lots of entries
/// together are those of the one and those of the other.
pub proof fn block_counts_add_up(
    some: Seq<(KvCacheKey, KvEntry)>,
    more: Seq<(KvCacheKey, KvEntry)>,
)
    ensures
        block_count(Seq::<(KvCacheKey, KvEntry)>::empty()) == 0,
        more.len() == 1 ==> block_count(more) == more[0].1.blocks().len(),
        block_count(some + more) == block_count(some) + block_count(more),
    decreases more.len(),
{
    if more.len() == 0 {
        assert(some + more =~= some);
    } else {
        block_counts_add_up(some, more.drop_last());
        assert((some + more).drop_last() =~= some + more.drop_last());
        assert((some + more).last() == more.last());
    }
}

/// Looking at a key changes nothing but the time: the blocks of every key, what is counted and the
/// capacity stay as they were, and the clock goes on by one until it can go no further.
pub proof fn looking_changes_nothing_else(
    before: KvCacheModel,
    after: KvCacheModel,
    key: KvCacheKey,
    i: int,
)
    requires
        before.viewed(key, after),
        ordered_map::keys_increase(before.entries),
        0 <= i < before.entries.len(),
    ensures
        after.capacity == before.capacity,
        after.evictions == before.evictions,
        before.clock < 0xffff_ffff_ffff_ffff ==> after.clock == before.clock + 1,
        after.entries.len() == before.entries.len(),
        after.entries[i].0 == before.entries[i].0,
        after.entries[i].1.blocks() == before.entries[i].1.blocks(),
        before.entries[i].0 != key ==> after.entries[i] == before.entries[i],
        before.entries[i].0 == key ==> after.entries[i].1.touched() == after.clock,
{
    ordered_map::lemma_position(before.entries, i);
    if ordered_map::has_key(before.entries, key) {
        let p = ordered_map::position_of(before.entries, key);
        assert(before.entries[p].0@ == key);
    } else {
        assert(before.entries[i].0@ != key);
    }
}

} // verus!
