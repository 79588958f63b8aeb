use vrb::kv_cache::{KvBlock, KvCache, KvCacheError, KvCacheKey};
use vrb::residency::ResidencyKey;

fn block(start: u64, count: u32, bytes: u64, suffix: &str) -> KvBlock {
    KvBlock {
        token_start: start,
        token_count: count,
        key_resource: ResidencyKey::new(&format!("k-{suffix}")).unwrap(),
        value_resource: ResidencyKey::new(&format!("v-{suffix}")).unwrap(),
        bytes,
    }
}

#[test]
fn appends_must_be_contiguous() {
    let key = KvCacheKey {
        sequence_id: 1,
        layer: 0,
    };
    let mut cache = KvCache::new(1024).unwrap();
    cache.append(key, block(0, 4, 100, "a")).unwrap();
    assert!(matches!(
        cache.append(key, block(5, 1, 10, "b")),
        Err(KvCacheError::NonContiguous {
            expected_start: 4,
            actual_start: 5
        })
    ));
}

#[test]
fn lru_eviction_preserves_recent_entry() {
    let a = KvCacheKey {
        sequence_id: 1,
        layer: 0,
    };
    let b = KvCacheKey {
        sequence_id: 2,
        layer: 0,
    };
    let c = KvCacheKey {
        sequence_id: 3,
        layer: 0,
    };
    let mut cache = KvCache::new(100).unwrap();
    cache.append(a, block(0, 1, 40, "a")).unwrap();
    cache.append(b, block(0, 1, 40, "b")).unwrap();
    cache.view(a).unwrap();
    cache.append(c, block(0, 1, 40, "c")).unwrap();

    assert!(cache.view(a).unwrap().is_some());
    assert!(cache.view(b).unwrap().is_none());
    assert!(cache.view(c).unwrap().is_some());
    assert_eq!(cache.stats().evictions, 1);
}

#[test]
fn active_entry_is_not_partially_evicted() {
    let key = KvCacheKey {
        sequence_id: 1,
        layer: 0,
    };
    let mut cache = KvCache::new(100).unwrap();
    cache.append(key, block(0, 1, 60, "a")).unwrap();
    assert!(matches!(
        cache.append(key, block(1, 1, 60, "b")),
        Err(KvCacheError::CapacityExceeded { .. })
    ));
    assert_eq!(cache.view(key).unwrap().unwrap().tokens, 1);
}

#[test]
fn blocks_and_capacities_are_checked() {
    let key = KvCacheKey {
        sequence_id: 1,
        layer: 0,
    };
    assert!(matches!(KvCache::new(0), Err(KvCacheError::ZeroCapacity)));
    let mut cache = KvCache::new(100).unwrap();
    assert!(matches!(
        cache.append(key, block(0, 0, 10, "a")),
        Err(KvCacheError::InvalidBlock)
    ));
    assert!(matches!(
        cache.append(key, block(0, 1, 0, "a")),
        Err(KvCacheError::InvalidBlock)
    ));
    assert!(matches!(
        cache.append(key, block(u64::MAX, 1, 10, "a")),
        Err(KvCacheError::TokenRangeOverflow)
    ));
    assert!(matches!(
        cache.append(key, block(0, 1, 101, "a")),
        Err(KvCacheError::CapacityExceeded { requested: 101, capacity: 100 })
    ));
}

#[test]
fn tokens_and_bytes_add_up_over_blocks() {
    let key = KvCacheKey {
        sequence_id: 7,
        layer: 3,
    };
    let mut cache = KvCache::new(1000).unwrap();
    cache.append(key, block(0, 4, 100, "a")).unwrap();
    cache.append(key, block(4, 2, 50, "b")).unwrap();
    let view = cache.view(key).unwrap().unwrap();
    assert_eq!(view.tokens, 6);
    assert_eq!(view.bytes, 150);
    assert_eq!(view.blocks.len(), 2);
    assert_eq!(view.blocks[1].key_resource.as_str(), "k-b");
    assert!(cache.remove(key));
    assert!(!cache.remove(key));
    assert!(cache.view(key).unwrap().is_none());
    cache.append(key, block(0, 1, 10, "c")).unwrap();
    cache.clear();
    assert_eq!(cache.stats().bytes, 0);
}

#[test]
fn cache_errors_have_texts() {
    for (error, text) in [
        (KvCacheError::ZeroCapacity, "KV-cache capacity must be non-zero"),
        (
            KvCacheError::InvalidBlock,
            "KV block must have non-zero token count and byte size",
        ),
        (KvCacheError::TokenRangeOverflow, "KV token range overflow"),
        (
            KvCacheError::NonContiguous { expected_start: 4, actual_start: 5 },
            "KV cache append is not contiguous: expected token 4, got 5",
        ),
        (KvCacheError::SizeOverflow, "KV-cache size arithmetic overflow"),
        (
            KvCacheError::CapacityExceeded { requested: 3, capacity: 2 },
            "KV-cache capacity exceeded: requested 3, capacity 2",
        ),
    ] {
        assert_eq!(error.message(), text);
    }
}
