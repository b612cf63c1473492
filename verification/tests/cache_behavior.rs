//! Behaviour of the write-behind cache on one opened store instance.

use kv_host::caching::CachingStoreManager;
use kv_host::errors::Error;
use kv_host::memory::{MemoryStore, MemoryStoreManager};
use kv_host::store::{Store, StoreManager};

fn manager_with(names: &[&str]) -> MemoryStoreManager {
    let mut mgr = MemoryStoreManager::new();
    for n in names {
        mgr.register(n.to_string(), MemoryStore::new());
    }
    mgr
}

fn open_cached(
    cap: usize,
    names: &[&str],
    name: &str,
) -> kv_host::caching::CachingStore<MemoryStore> {
    let cm = CachingStoreManager::new_with_capacity(cap, manager_with(names));
    cm.get(&name.to_string()).expect("store should resolve")
}

fn key(s: &str) -> String {
    s.to_string()
}

fn bytes(s: &str) -> Vec<u8> {
    s.as_bytes().to_vec()
}

#[test]
fn read_your_writes_immediately_after_set() {
    let mut st = open_cached(16, &["default"], "default");
    assert_eq!(st.set(&key("k"), &bytes("v")), Ok(()));
    assert_eq!(st.get(&key("k")), Ok(Some(bytes("v"))));
}

#[test]
fn read_your_writes_before_any_backend_write_ran() {
    let mut st = open_cached(16, &["default"], "default");
    st.set(&key("k"), &bytes("v")).unwrap();
    // No flush and no worker step has run: the value is still only cached.
    assert_eq!(st.get(&key("k")), Ok(Some(bytes("v"))));
}

#[test]
fn tombstone_hides_key_immediately() {
    let mut st = open_cached(16, &["default"], "default");
    st.set(&key("k"), &bytes("v")).unwrap();
    st.delete(&key("k")).unwrap();
    assert_eq!(st.exists_key(&key("k")), Ok(false));
    assert_eq!(st.get(&key("k")), Ok(None));
}

#[test]
fn delete_of_absent_key_succeeds() {
    let mut st = open_cached(16, &["default"], "default");
    assert_eq!(st.delete(&key("nothing")), Ok(()));
    assert_eq!(st.exists_key(&key("nothing")), Ok(false));
}

#[test]
fn write_order_later_value_wins_after_flush() {
    let mut st = open_cached(1, &["default"], "default");
    st.set(&key("k"), &bytes("a")).unwrap();
    st.set(&key("k"), &bytes("b")).unwrap();
    // Evict "k" from the capacity-1 cache so the next read must hit the
    // backend after draining both queued writes in order.
    st.set(&key("other"), &bytes("x")).unwrap();
    assert_eq!(st.get(&key("k")), Ok(Some(bytes("b"))));
}

#[test]
fn write_order_preserved_when_worker_drains_one_at_a_time() {
    let mut st = open_cached(1, &["default"], "default");
    st.set(&key("k"), &bytes("a")).unwrap();
    st.set(&key("k"), &bytes("b")).unwrap();
    st.run_next_write();
    st.run_next_write();
    st.set(&key("other"), &bytes("x")).unwrap();
    assert_eq!(st.get(&key("k")), Ok(Some(bytes("b"))));
}

#[test]
fn eviction_safe_consistency_capacity_one() {
    let mut st = open_cached(1, &["default"], "default");
    st.set(&key("a"), &bytes("1")).unwrap();
    st.set(&key("b"), &bytes("2")).unwrap();
    // "a" was evicted while its write was still queued; the miss flushes
    // before reading the backend, so the written value is observed.
    assert_eq!(st.get(&key("a")), Ok(Some(bytes("1"))));
}

#[test]
fn key_listing_overlays_pending_writes() {
    let mut backend = MemoryStore::new();
    backend.set(&key("x"), &bytes("1")).unwrap();
    backend.set(&key("y"), &bytes("2")).unwrap();
    let mut mgr = MemoryStoreManager::new();
    mgr.register("default".to_string(), backend);
    let cm = CachingStoreManager::new_with_capacity(16, mgr);
    let mut st = cm.get(&key("default")).unwrap();

    st.delete(&key("y")).unwrap();
    st.set(&key("z"), &bytes("3")).unwrap();

    let mut keys = st.get_keys().unwrap();
    keys.sort();
    assert_eq!(keys, vec![key("x"), key("z")]);
}

#[test]
fn repeated_key_listing_is_rederived() {
    let mut st = open_cached(16, &["default"], "default");
    st.set(&key("a"), &bytes("1")).unwrap();
    let mut first = st.get_keys().unwrap();
    st.set(&key("b"), &bytes("2")).unwrap();
    let mut second = st.get_keys().unwrap();
    first.sort();
    second.sort();
    assert_eq!(first, vec![key("a")]);
    assert_eq!(second, vec![key("a"), key("b")]);
}

#[test]
fn miss_populates_cache_from_backend() {
    let mut backend = MemoryStore::new();
    backend.set(&key("k"), &bytes("v")).unwrap();
    let mut mgr = MemoryStoreManager::new();
    mgr.register("default".to_string(), backend);
    let cm = CachingStoreManager::new(mgr);
    let mut st = cm.get(&key("default")).unwrap();
    assert_eq!(st.get(&key("k")), Ok(Some(bytes("v"))));
    assert_eq!(st.get(&key("k")), Ok(Some(bytes("v"))));
    assert_eq!(st.get(&key("absent")), Ok(None));
}

#[test]
fn flush_succeeds_and_drains_queue() {
    let mut st = open_cached(4, &["default"], "default");
    st.set(&key("a"), &bytes("1")).unwrap();
    st.delete(&key("a")).unwrap();
    assert_eq!(st.flush(), Ok(()));
    assert_eq!(st.flush(), Ok(()));
}

#[test]
fn worker_step_on_empty_queue_is_a_no_op() {
    let mut st = open_cached(4, &["default"], "default");
    st.run_next_write();
    assert_eq!(st.get(&key("k")), Ok(None));
}

#[test]
fn unsupported_extension_operations_fail_explicitly() {
    let st = open_cached(4, &["default"], "default");
    assert!(matches!(st.get_many(&vec![key("a")]), Err(Error::Other(_))));
    assert!(matches!(st.set_many(&vec![(key("a"), bytes("1"))]), Err(Error::Other(_))));
    assert!(matches!(st.delete_many(&vec![key("a")]), Err(Error::Other(_))));
    assert!(matches!(st.increment(&key("a"), 2), Err(Error::Other(_))));
    assert!(matches!(st.new_compare_and_swap(&key("a")), Err(Error::Other(_))));
}

#[test]
fn caching_manager_reports_inner_definitions() {
    let cm = CachingStoreManager::new(manager_with(&["default"]));
    assert!(cm.is_defined(&key("default")));
    assert!(!cm.is_defined(&key("other")));
    assert!(matches!(cm.get(&key("missing")), Err(Error::NoSuchStore)));
    assert_eq!(cm.summary(&key("default")), Some("in-memory store".to_string()));
    assert_eq!(cm.summary(&key("missing")), None);
}

#[test]
fn independent_caches_for_two_resolutions() {
    let cm = CachingStoreManager::new(manager_with(&["default"]));
    let mut a = cm.get(&key("default")).unwrap();
    let mut b = cm.get(&key("default")).unwrap();
    a.set(&key("k"), &bytes("v")).unwrap();
    assert_eq!(b.get(&key("k")), Ok(None));
    assert_eq!(a.get(&key("k")), Ok(Some(bytes("v"))));
}
