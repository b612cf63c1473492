//! The handle table, access control, and the protocol entry points.

use kv_host::caching::CachingStoreManager;
use kv_host::delegating::DelegatingStoreManager;
use kv_host::dispatch::{InvalidStore, KeyValueDispatch};
use kv_host::errors::{Error, LegacyError, WasiError, to_legacy_error, to_wasi_err};
use kv_host::memory::{MemoryStore, MemoryStoreManager};
use kv_host::store::{Store, StoreManager};

type Host = KeyValueDispatch<CachingStoreManager<MemoryStoreManager>>;

fn host(allowed: &[&str], defined: &[&str], capacity: u32) -> Host {
    let mut mgr = MemoryStoreManager::new();
    for n in defined {
        mgr.register(n.to_string(), MemoryStore::new());
    }
    let allowed: Vec<String> = allowed.iter().map(|s| s.to_string()).collect();
    KeyValueDispatch::new_with_capacity(allowed, CachingStoreManager::new(mgr), capacity)
}

fn key(s: &str) -> String {
    s.to_string()
}

fn bytes(s: &str) -> Vec<u8> {
    s.as_bytes().to_vec()
}

#[test]
fn read_your_writes_through_the_host() {
    let mut h = host(&["default"], &["default"], 8);
    let handle = h.open(key("default")).unwrap();
    assert_eq!(h.set(handle, &key("k"), &bytes("v")), Ok(Ok(())));
    assert_eq!(h.get(handle, &key("k")), Ok(Ok(Some(bytes("v")))));
}

#[test]
fn tombstone_visible_through_the_host() {
    let mut h = host(&["default"], &["default"], 8);
    let handle = h.open(key("default")).unwrap();
    h.set(handle, &key("k"), &bytes("v")).unwrap().unwrap();
    h.delete(handle, &key("k")).unwrap().unwrap();
    assert_eq!(h.exists_key(handle, &key("k")), Ok(Ok(false)));
}

#[test]
fn access_denied_takes_precedence_over_existence() {
    // "other" exists in the manager, but is not allow-listed.
    let mut h = host(&["default"], &["default", "other"], 8);
    assert_eq!(h.open(key("other")), Err(Error::AccessDenied));
    // A name that exists nowhere is denied identically.
    assert_eq!(h.open(key("phantom")), Err(Error::AccessDenied));
}

#[test]
fn allowed_but_unknown_name_is_no_such_store() {
    let mut h = host(&["ghost"], &[], 8);
    assert_eq!(h.open(key("ghost")), Err(Error::NoSuchStore));
}

#[test]
fn capacity_exhaustion_reports_store_table_full() {
    let mut h = host(&["default"], &["default"], 1);
    h.open(key("default")).unwrap();
    assert_eq!(h.open(key("default")), Err(Error::StoreTableFull));
}

#[test]
fn closing_frees_table_capacity() {
    let mut h = host(&["default"], &["default"], 1);
    let first = h.open(key("default")).unwrap();
    h.close(first);
    let second = h.open(key("default")).unwrap();
    assert_ne!(first, second);
}

#[test]
fn cross_handle_isolation() {
    let mut h = host(&["default"], &["default"], 8);
    let h1 = h.open(key("default")).unwrap();
    let h2 = h.open(key("default")).unwrap();
    h.set(h1, &key("k"), &bytes("v")).unwrap().unwrap();
    // The uncommitted write of h1 is invisible through h2.
    assert_eq!(h.get(h2, &key("k")), Ok(Ok(None)));
    assert_eq!(h.get(h1, &key("k")), Ok(Ok(Some(bytes("v")))));
}

#[test]
fn stale_handle_fails_every_operation() {
    let mut h = host(&["default"], &["default"], 8);
    let handle = h.open(key("default")).unwrap();
    h.close(handle);
    assert_eq!(h.get(handle, &key("k")), Err(InvalidStore));
    assert_eq!(h.set(handle, &key("k"), &bytes("v")), Err(InvalidStore));
    assert_eq!(h.delete(handle, &key("k")), Err(InvalidStore));
    assert_eq!(h.exists_key(handle, &key("k")), Err(InvalidStore));
    assert_eq!(h.get_keys(handle), Err(InvalidStore));
    // A handle never issued fails identically.
    assert_eq!(h.get(12345, &key("k")), Err(InvalidStore));
    // Closing again is a harmless no-op.
    h.close(handle);
}

#[test]
fn stale_handle_never_resolves_to_a_newer_store() {
    let mut h = host(&["default"], &["default"], 8);
    let old_handle = h.open(key("default")).unwrap();
    h.close(old_handle);
    let new_handle = h.open(key("default")).unwrap();
    assert_ne!(old_handle, new_handle);
    assert_eq!(h.get(old_handle, &key("k")), Err(InvalidStore));
    assert_eq!(h.get(new_handle, &key("k")), Ok(Ok(None)));
}

#[test]
fn get_store_accessors_distinguish_live_handles() {
    let mut h = host(&["default"], &["default"], 8);
    let handle = h.open(key("default")).unwrap();
    assert!(h.get_store(handle).is_ok());
    assert!(h.get_store_wasi(handle).is_ok());
    h.close(handle);
    assert!(matches!(h.get_store(handle), Err(InvalidStore)));
    assert!(matches!(h.get_store_wasi(handle), Err(WasiError::NoSuchStore)));
}

#[test]
fn allowed_stores_reports_the_allow_list() {
    let h = host(&["a", "b"], &[], 8);
    assert_eq!(h.allowed_stores(), &vec![key("a"), key("b")]);
}

#[test]
fn get_keys_through_the_host() {
    let mut h = host(&["default"], &["default"], 8);
    let handle = h.open(key("default")).unwrap();
    h.set(handle, &key("b"), &bytes("2")).unwrap().unwrap();
    h.set(handle, &key("a"), &bytes("1")).unwrap().unwrap();
    let mut keys = h.get_keys(handle).unwrap().unwrap();
    keys.sort();
    assert_eq!(keys, vec![key("a"), key("b")]);
}

#[test]
fn legacy_open_and_errors_map_one_to_one() {
    let mut h = host(&["default"], &["default"], 1);
    assert_eq!(h.open_legacy(key("missing")), Err(LegacyError::AccessDenied));
    let handle = h.open_legacy(key("default")).unwrap();
    assert_eq!(h.open_legacy(key("default")), Err(LegacyError::StoreTableFull));
    h.close(handle);
    let mut h2 = host(&["ghost"], &[], 1);
    assert_eq!(h2.open_legacy(key("ghost")), Err(LegacyError::NoSuchStore));
}

#[test]
fn legacy_get_reports_missing_key() {
    let mut h = host(&["default"], &["default"], 8);
    let handle = h.open_legacy(key("default")).unwrap();
    assert_eq!(h.get_legacy(handle, &key("k")), Ok(Err(LegacyError::NoSuchKey)));
    h.set_legacy(handle, &key("k"), &bytes("v")).unwrap().unwrap();
    assert_eq!(h.get_legacy(handle, &key("k")), Ok(Ok(bytes("v"))));
    h.delete_legacy(handle, &key("k")).unwrap().unwrap();
    assert_eq!(h.get_legacy(handle, &key("k")), Ok(Err(LegacyError::NoSuchKey)));
    assert_eq!(h.exists_legacy(handle, &key("k")), Ok(Ok(false)));
    let keys = h.get_keys_legacy(handle).unwrap().unwrap();
    assert!(keys.is_empty());
}

#[test]
fn wasi_open_and_list_keys() {
    let mut h = host(&["default"], &["default"], 8);
    assert_eq!(h.open_wasi(key("nope")), Err(WasiError::AccessDenied));
    let handle = h.open_wasi(key("default")).unwrap();
    h.set(handle, &key("x"), &bytes("1")).unwrap().unwrap();

    let resp = h.list_keys(handle, None).unwrap();
    assert_eq!(resp.keys, vec![key("x")]);
    assert_eq!(resp.cursor, None);

    let resp = h.list_keys(handle, Some(0)).unwrap();
    assert_eq!(resp.keys, vec![key("x")]);

    assert!(matches!(h.list_keys(handle, Some(7)), Err(WasiError::Other(_))));
    h.close(handle);
    assert_eq!(
        h.list_keys(handle, None).map(|r| r.keys),
        Err(WasiError::NoSuchStore)
    );
}

#[test]
fn wasi_table_full_becomes_opaque_message() {
    let mut h = host(&["default"], &["default"], 1);
    h.open_wasi(key("default")).unwrap();
    assert!(matches!(h.open_wasi(key("default")), Err(WasiError::Other(_))));
}

#[test]
fn error_translations_cover_every_variant() {
    assert_eq!(to_legacy_error(Error::AccessDenied), LegacyError::AccessDenied);
    assert_eq!(to_legacy_error(Error::NoSuchStore), LegacyError::NoSuchStore);
    assert_eq!(to_legacy_error(Error::StoreTableFull), LegacyError::StoreTableFull);
    assert_eq!(
        to_legacy_error(Error::Other("boom".to_string())),
        LegacyError::Io("boom".to_string())
    );
    assert_eq!(to_wasi_err(Error::AccessDenied), WasiError::AccessDenied);
    assert_eq!(to_wasi_err(Error::NoSuchStore), WasiError::NoSuchStore);
    assert_eq!(
        to_wasi_err(Error::StoreTableFull),
        WasiError::Other("store table full".to_string())
    );
    assert_eq!(
        to_wasi_err(Error::Other("boom".to_string())),
        WasiError::Other("boom".to_string())
    );
}

#[test]
fn delegating_manager_routes_by_name() {
    let mut users = MemoryStoreManager::new();
    users.register(key("users"), MemoryStore::new());
    let mut carts = MemoryStoreManager::new();
    carts.register(key("carts"), MemoryStore::new());
    let routing = DelegatingStoreManager::new(vec![(key("users"), users), (key("carts"), carts)]);

    assert!(routing.is_defined(&key("users")));
    assert!(routing.is_defined(&key("carts")));
    assert!(!routing.is_defined(&key("orders")));
    assert!(routing.get(&key("users")).is_ok());
    assert!(matches!(routing.get(&key("orders")), Err(Error::NoSuchStore)));
    assert_eq!(routing.summary(&key("users")), Some("in-memory store".to_string()));
    assert_eq!(routing.summary(&key("orders")), None);
}

#[test]
fn delegating_manager_propagates_inner_misses() {
    // The route exists but its inner manager does not define the name.
    let empty = MemoryStoreManager::new();
    let routing = DelegatingStoreManager::new(vec![(key("users"), empty)]);
    assert!(routing.is_defined(&key("users")));
    assert!(matches!(routing.get(&key("users")), Err(Error::NoSuchStore)));
}

#[test]
fn memory_store_basics() {
    let mut st = MemoryStore::new();
    assert_eq!(st.get(&key("k")), Ok(None));
    st.set(&key("k"), &bytes("1")).unwrap();
    assert_eq!(st.get(&key("k")), Ok(Some(bytes("1"))));
    st.set(&key("k"), &bytes("2")).unwrap();
    assert_eq!(st.get(&key("k")), Ok(Some(bytes("2"))));
    assert_eq!(st.exists_key(&key("k")), Ok(true));
    st.delete(&key("k")).unwrap();
    assert_eq!(st.exists_key(&key("k")), Ok(false));
    assert_eq!(st.get_keys(), Ok(vec![]));
}

#[test]
fn wasi_operations_map_errors_and_values() {
    let mut h = host(&["default"], &["default"], 8);
    let handle = h.open_wasi(key("default")).unwrap();
    assert_eq!(h.set_wasi(handle, &key("k"), &bytes("v")), Ok(()));
    assert_eq!(h.get_wasi(handle, &key("k")), Ok(Some(bytes("v"))));
    assert_eq!(h.exists_wasi(handle, &key("k")), Ok(true));
    assert_eq!(h.delete_wasi(handle, &key("k")), Ok(()));
    assert_eq!(h.exists_wasi(handle, &key("k")), Ok(false));
    h.close(handle);
    assert_eq!(h.get_wasi(handle, &key("k")), Err(WasiError::NoSuchStore));
    assert_eq!(h.set_wasi(handle, &key("k"), &bytes("v")), Err(WasiError::NoSuchStore));
    assert_eq!(h.delete_wasi(handle, &key("k")), Err(WasiError::NoSuchStore));
    assert_eq!(h.exists_wasi(handle, &key("k")), Err(WasiError::NoSuchStore));
}

#[test]
fn convert_error_is_the_identity() {
    let h = host(&[], &[], 8);
    assert_eq!(h.convert_error(WasiError::AccessDenied), WasiError::AccessDenied);
    assert_eq!(
        h.convert_error(WasiError::Other("m".to_string())),
        WasiError::Other("m".to_string())
    );
}

#[test]
fn worker_can_be_driven_through_the_host() {
    let mut h = host(&["default"], &["default"], 8);
    let handle = h.open(key("default")).unwrap();
    h.set(handle, &key("k"), &bytes("a")).unwrap().unwrap();
    h.set(handle, &key("k"), &bytes("b")).unwrap().unwrap();
    // Two worker steps land both queued writes in submission order.
    assert_eq!(h.run_next_write(handle), Ok(()));
    assert_eq!(h.run_next_write(handle), Ok(()));
    // A further step with an empty queue is a no-op.
    assert_eq!(h.run_next_write(handle), Ok(()));
    assert_eq!(h.get(handle, &key("k")), Ok(Ok(Some(bytes("b")))));
    h.close(handle);
    assert_eq!(h.run_next_write(handle), Err(InvalidStore));
}
