use std::sync::atomic::{AtomicUsize, Ordering};
use std::sync::Arc;
use vrb::residency::{
    ResidencyCache, ResidencyError, ResidencyKey, ResidencyProvider, ResidencySpec, ResidencyStats,
    ResidentAllocation,
};

struct FakeAllocation {
    spec: ResidencySpec,
}

impl ResidentAllocation for FakeAllocation {
    fn spec(&self) -> &ResidencySpec {
        &self.spec
    }
}

struct FakeProvider {
    opens: AtomicUsize,
}

impl FakeProvider {
    fn new() -> Self {
        Self {
            opens: AtomicUsize::new(0),
        }
    }
}

impl ResidencyProvider<dyn ResidentAllocation> for FakeProvider {
    fn open(&self, spec: &ResidencySpec) -> Result<Arc<dyn ResidentAllocation>, ResidencyError> {
        self.opens.fetch_add(1, Ordering::SeqCst);
        Ok(Arc::new(FakeAllocation { spec: spec.clone() }))
    }
}

fn spec(key: &str, generation: u64, bytes: u64) -> ResidencySpec {
    ResidencySpec {
        key: ResidencyKey::new(key).unwrap(),
        generation,
        device_index: 0,
        bytes,
    }
}

#[test]
fn exact_generation_is_reused() {
    let provider = FakeProvider::new();
    let mut cache: ResidencyCache<dyn ResidentAllocation> = ResidencyCache::new(1024).unwrap();
    let first = cache.acquire(&provider, &spec("weights", 1, 512)).unwrap();
    let second = cache.acquire(&provider, &spec("weights", 1, 512)).unwrap();

    assert!(Arc::ptr_eq(&first, &second));
    assert_eq!(provider.opens.load(Ordering::SeqCst), 1);
    assert_eq!(
        cache.stats().unwrap(),
        ResidencyStats {
            entries: 1,
            resident_bytes: 512,
            hits: 1,
            misses: 1,
            evictions: 0,
        }
    );
}

#[test]
fn generation_change_reopens_without_invalidating_active_lease() {
    let provider = FakeProvider::new();
    let mut cache: ResidencyCache<dyn ResidentAllocation> = ResidencyCache::new(1024).unwrap();
    let old = cache.acquire(&provider, &spec("weights", 1, 512)).unwrap();
    let new = cache.acquire(&provider, &spec("weights", 2, 512)).unwrap();

    assert!(!Arc::ptr_eq(&old, &new));
    assert_eq!(old.spec().generation, 1);
    assert_eq!(new.spec().generation, 2);
    assert_eq!(provider.opens.load(Ordering::SeqCst), 2);
}

#[test]
fn least_recently_used_entry_is_evicted() {
    let provider = FakeProvider::new();
    let mut cache: ResidencyCache<dyn ResidentAllocation> = ResidencyCache::new(100).unwrap();

    let _ = cache.acquire(&provider, &spec("a", 1, 40)).unwrap();
    let _ = cache.acquire(&provider, &spec("b", 1, 40)).unwrap();
    let _ = cache.acquire(&provider, &spec("a", 1, 40)).unwrap();
    let _ = cache.acquire(&provider, &spec("c", 1, 40)).unwrap();
    let _ = cache.acquire(&provider, &spec("b", 1, 40)).unwrap();

    assert_eq!(provider.opens.load(Ordering::SeqCst), 4);
    let stats = cache.stats().unwrap();
    assert_eq!(stats.entries, 2);
    assert_eq!(stats.resident_bytes, 80);
    assert!(stats.evictions >= 2);
}

struct WrongProvider;

impl ResidencyProvider<dyn ResidentAllocation> for WrongProvider {
    fn open(&self, spec: &ResidencySpec) -> Result<Arc<dyn ResidentAllocation>, ResidencyError> {
        let mut other = spec.clone();
        other.bytes += 1;
        Ok(Arc::new(FakeAllocation { spec: other }))
    }
}

struct FailingProvider;

impl ResidencyProvider<dyn ResidentAllocation> for FailingProvider {
    fn open(&self, _spec: &ResidencySpec) -> Result<Arc<dyn ResidentAllocation>, ResidencyError> {
        Err(ResidencyError::Provider("no memory".to_owned()))
    }
}

#[test]
fn providers_are_held_to_what_they_were_asked_for() {
    let mut cache: ResidencyCache<dyn ResidentAllocation> = ResidencyCache::new(100).unwrap();
    assert!(matches!(
        cache.acquire(&WrongProvider, &spec("a", 1, 40)),
        Err(ResidencyError::ProviderContract { .. })
    ));
    assert!(matches!(
        cache.acquire(&FailingProvider, &spec("a", 1, 40)),
        Err(ResidencyError::Provider(reason)) if reason == "no memory"
    ));
    assert_eq!(cache.stats().unwrap().entries, 0);
}

#[test]
fn specs_and_capacities_are_checked() {
    assert!(matches!(
        ResidencyCache::<dyn ResidentAllocation>::new(0),
        Err(ResidencyError::ZeroCapacity)
    ));
    assert!(matches!(ResidencyKey::new("  "), Err(ResidencyError::InvalidKey)));
    let provider = FakeProvider::new();
    let mut cache: ResidencyCache<dyn ResidentAllocation> = ResidencyCache::new(100).unwrap();
    assert_eq!(cache.capacity_bytes(), 100);
    assert!(matches!(
        cache.acquire(&provider, &spec("a", 1, 101)),
        Err(ResidencyError::CapacityExceeded { requested: 101, capacity: 100 })
    ));
    assert!(matches!(
        cache.acquire(&provider, &spec("a", 1, 0)),
        Err(ResidencyError::InvalidSpec { .. })
    ));
    let mut negative = spec("a", 1, 10);
    negative.device_index = -1;
    assert!(matches!(
        cache.acquire(&provider, &negative),
        Err(ResidencyError::InvalidSpec { .. })
    ));
    assert_eq!(provider.opens.load(Ordering::SeqCst), 0);
}

#[test]
fn invalidating_and_clearing_free_what_is_resident() {
    let provider = FakeProvider::new();
    let mut cache: ResidencyCache<dyn ResidentAllocation> = ResidencyCache::new(100).unwrap();
    let lease = cache.acquire(&provider, &spec("a", 1, 40)).unwrap();
    cache.acquire(&provider, &spec("b", 1, 40)).unwrap();
    assert_eq!(cache.invalidate(&ResidencyKey::new("a").unwrap()), Ok(true));
    assert_eq!(cache.invalidate(&ResidencyKey::new("a").unwrap()), Ok(false));
    assert_eq!(lease.spec().bytes, 40);
    assert_eq!(cache.stats().unwrap().resident_bytes, 40);
    cache.clear().unwrap();
    assert_eq!(cache.stats().unwrap().entries, 0);
    assert_eq!(cache.stats().unwrap().resident_bytes, 0);
}

// Reports one spec for a number of times and another from then on.
struct ChangingAllocation {
    first: ResidencySpec,
    other: ResidencySpec,
    times: usize,
    asked: AtomicUsize,
}

impl ResidentAllocation for ChangingAllocation {
    fn spec(&self) -> &ResidencySpec {
        if self.asked.fetch_add(1, Ordering::SeqCst) < self.times {
            &self.first
        } else {
            &self.other
        }
    }
}

struct ChangingProvider {
    other: ResidencySpec,
    times: usize,
}

impl ResidencyProvider<dyn ResidentAllocation> for ChangingProvider {
    fn open(&self, spec: &ResidencySpec) -> Result<Arc<dyn ResidentAllocation>, ResidencyError> {
        Ok(Arc::new(ChangingAllocation {
            first: spec.clone(),
            other: self.other.clone(),
            times: self.times,
            asked: AtomicUsize::new(0),
        }))
    }
}

#[test]
fn allocations_are_asked_again_for_their_spec() {
    let mut cache: ResidencyCache<dyn ResidentAllocation> = ResidencyCache::new(100).unwrap();
    let changing = ChangingProvider { other: spec("a", 2, 10), times: 1 };
    let _ = cache.acquire(&changing, &spec("a", 1, 60)).unwrap();

    // It says that only ten bytes go with it, so sixty others find no room.
    assert_eq!(
        cache.acquire(&FakeProvider::new(), &spec("b", 1, 60)).err(),
        Some(ResidencyError::CapacityExceeded { requested: 60, capacity: 100 })
    );
    assert_eq!(
        cache.stats().unwrap(),
        ResidencyStats { entries: 0, resident_bytes: 50, hits: 0, misses: 2, evictions: 1 }
    );

    let first = cache.acquire(&changing, &spec("a", 1, 20)).unwrap();
    let second = cache.acquire(&FakeProvider::new(), &spec("a", 1, 20)).unwrap();
    assert!(!Arc::ptr_eq(&first, &second));
    assert_eq!(cache.stats().unwrap().resident_bytes, 80);
    assert_eq!(cache.invalidate(&ResidencyKey::new("a").unwrap()), Ok(true));
    assert_eq!(cache.stats().unwrap().resident_bytes, 60);
}

#[test]
fn the_spec_that_was_returned_is_asked_for_again() {
    let mut cache: ResidencyCache<dyn ResidentAllocation> = ResidencyCache::new(100).unwrap();
    let asked = spec("a", 1, 60);
    let changing = ChangingProvider { other: spec("b", 3, 7), times: 0 };
    assert_eq!(
        cache.acquire(&changing, &asked).err(),
        Some(ResidencyError::ProviderContract { requested: asked, returned: spec("b", 3, 7) })
    );
}

#[test]
fn residency_errors_have_texts() {
    assert_eq!(ResidencyError::InvalidKey.message(), "residency key cannot be empty");
    assert_eq!(
        ResidencyError::InvalidSpec {
            key: ResidencyKey::new("k").unwrap(),
            device_index: -1,
            bytes: 5
        }
        .message(),
        "invalid residency spec for 'k': device_index=-1, bytes=5"
    );
    assert_eq!(
        ResidencyError::ZeroCapacity.message(),
        "residency cache capacity must be non-zero"
    );
    assert_eq!(
        ResidencyError::CapacityExceeded { requested: 9, capacity: 8 }.message(),
        "residency capacity exceeded: requested 9 bytes, capacity 8 bytes"
    );
    assert_eq!(
        ResidencyError::Provider("why".to_owned()).message(),
        "residency provider failed: why"
    );
    assert_eq!(ResidencyError::Poisoned.message(), "residency cache lock is poisoned");
    let (requested, returned) = (spec("a \"b\" \\ \u{e9}\u{301}", 1, 5), spec("plain", 2, 6));
    assert_eq!(
        ResidencyError::ProviderContract {
            requested: requested.clone(),
            returned: returned.clone()
        }
        .message(),
        format!(
            "residency provider contract violation: requested {requested:?}, returned {returned:?}"
        )
    );
    assert_eq!(
        format!("{returned:?}"),
        "ResidencySpec { key: ResidencyKey(\"plain\"), generation: 2, device_index: 0, bytes: 6 }"
    );
}
