use web_admin::cache::{BodyCache, CACHE_TTL_MS, STALE_MS, SWEEP_AT};

#[test]
fn a_stored_body_is_served_until_its_time_is_up() {
    let mut c = BodyCache::new();
    assert_eq!(c.get("conv-1", 0), None);
    c.store("conv-1", "{\"turns\":1}".to_string(), 1_000);
    assert_eq!(c.get("conv-1", 1_000), Some("{\"turns\":1}".to_string()));
    assert_eq!(c.get("conv-1", 1_000 + CACHE_TTL_MS - 1), Some("{\"turns\":1}".to_string()));
    assert_eq!(c.get("conv-1", 1_000 + CACHE_TTL_MS), None);
    assert_eq!(c.get("conv-2", 1_000), None);
}

#[test]
fn a_second_store_replaces_the_first() {
    let mut c = BodyCache::new();
    c.store("k", "old".to_string(), 0);
    c.store("k", "new".to_string(), 5_000);
    assert_eq!(c.get("k", 5_500), Some("new".to_string()));
}

#[test]
fn invalidation_drops_only_its_own_key() {
    let mut c = BodyCache::new();
    c.store("a", "A".to_string(), 10);
    c.store("b", "B".to_string(), 10);
    c.invalidate("a");
    assert_eq!(c.get("a", 10), None);
    assert_eq!(c.get("b", 10), Some("B".to_string()));
}

#[test]
fn a_full_cache_sweeps_stale_bodies_on_store() {
    let mut c = BodyCache::new();
    for i in 0..=SWEEP_AT {
        c.store(&format!("old-{i}"), "x".to_string(), 0);
    }
    c.store("fresh", "y".to_string(), STALE_MS);
    assert_eq!(c.get("fresh", STALE_MS), Some("y".to_string()));
    assert_eq!(c.get("old-0", 1), None);
}
