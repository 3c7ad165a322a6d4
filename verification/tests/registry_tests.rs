use symbolserver::database::Database;
use symbolserver::errors::{AcquireError, LoadFault};
use symbolserver::image::{DebugId, ImageIndex};
use symbolserver::registry::{AcquireStep, Registry};
use symbolserver::resolve::{resolve_batch, ImageIdentity, Query};
use symbolserver::symtab::{SymbolEntry, SymbolTable};

fn entry(addr: u64, name: &str) -> SymbolEntry {
    SymbolEntry { addr, name: name.to_string() }
}

fn small_db(id: u128) -> Database {
    let img = ImageIndex {
        debug_id: Some(DebugId { value: id }),
        object_path: None,
        arch: "arm64".to_string(),
        object_name: "app".to_string(),
        link_vmaddr: Some(0),
        table: SymbolTable::new(vec![entry(100, "f"), entry(200, "g"), entry(300, "h")])
            .unwrap(),
    };
    Database::from_images(vec![img]).unwrap()
}

fn registry_with(sources: &[&str], capacity: usize) -> Registry {
    Registry::new(sources.iter().map(|s| s.to_string()).collect(), capacity)
}

#[test]
fn unknown_sdk_fails_at_once() {
    let mut reg = registry_with(&["ios-10.3"], 4);
    let step = reg.acquire_step(&"android-7".to_string());
    assert!(matches!(step, AcquireStep::Unknown));
    // no flight was opened and nothing was loaded
    assert_eq!(reg.load_start_count(), 0);
    assert_eq!(reg.check_health().loads_in_flight, 0);
}

#[test]
fn single_flight_shares_one_load() {
    let mut reg = registry_with(&["ios-10.3"], 4);
    let key = "ios-10.3".to_string();

    // N callers race for the same uncached identifier: the first starts
    // the one load, every later one joins it.
    let first = reg.acquire_step(&key);
    assert!(matches!(first, AcquireStep::StartLoad));
    for _ in 0..5 {
        assert!(matches!(reg.acquire_step(&key), AcquireStep::Join));
    }
    assert_eq!(reg.load_start_count(), 1);

    // the one outcome is distributed to every waiter
    let handle = reg.complete_load(&key, Ok(small_db(1))).unwrap();
    assert_eq!(handle.image_count(), 1);

    // later acquires hit the cache without any further load
    match reg.acquire_step(&key) {
        AcquireStep::Ready(h) => assert_eq!(h.image_count(), 1),
        _ => panic!("expected a cache hit"),
    }
    assert_eq!(reg.load_start_count(), 1);
}

#[test]
fn failed_load_leaves_no_stale_entry_and_next_acquire_retries() {
    let mut reg = registry_with(&["ios-10.3"], 4);
    let key = "ios-10.3".to_string();

    assert!(matches!(reg.acquire_step(&key), AcquireStep::StartLoad));
    let err = reg.complete_load(&key, Err(LoadFault::Io)).unwrap_err();
    assert_eq!(err, AcquireError::LoadError(LoadFault::Io));

    // nothing cached, flight retired; a fresh acquire starts a new load
    assert_eq!(reg.check_health().cached_databases, 0);
    assert!(matches!(reg.acquire_step(&key), AcquireStep::StartLoad));
    assert_eq!(reg.load_start_count(), 2);
}

#[test]
fn health_tracks_most_recent_load_outcomes() {
    let mut reg = registry_with(&["a", "b"], 4);
    assert!(reg.check_health().is_healthy);

    reg.acquire_step(&"a".to_string());
    reg.complete_load(&"a".to_string(), Err(LoadFault::Io)).unwrap_err();
    let down = reg.check_health();
    assert!(!down.is_healthy);
    assert_eq!(down.failures_since_success, 1);

    reg.acquire_step(&"a".to_string());
    reg.complete_load(&"a".to_string(), Err(LoadFault::Format)).unwrap_err();
    assert_eq!(reg.check_health().failures_since_success, 2);

    // a success supersedes the failures
    reg.acquire_step(&"b".to_string());
    reg.complete_load(&"b".to_string(), Ok(small_db(1))).unwrap();
    let up = reg.check_health();
    assert!(up.is_healthy);
    assert_eq!(up.failures_since_success, 0);
}

#[test]
fn eviction_keeps_handed_out_shares_valid() {
    let mut reg = registry_with(&["old", "new"], 1);

    reg.acquire_step(&"old".to_string());
    let held = reg.complete_load(&"old".to_string(), Ok(small_db(1))).unwrap();

    // the bound is 1: loading the second identifier evicts the first
    reg.acquire_step(&"new".to_string());
    reg.complete_load(&"new".to_string(), Ok(small_db(2))).unwrap();
    assert_eq!(reg.check_health().cached_databases, 1);
    assert!(matches!(reg.acquire_step(&"old".to_string()), AcquireStep::StartLoad));

    // the share handed out before the eviction still resolves correctly
    let queries = vec![Query {
        addr: 250,
        image_addr: 0,
        image_vmaddr: None,
        identity: ImageIdentity::ByDebugId(DebugId { value: 1 }),
    }];
    let out = resolve_batch(&held, &"arm64".to_string(), &queries);
    assert_eq!(out[0].as_ref().unwrap().symbol, "g");
    assert_eq!(out[0].as_ref().unwrap().addr, 200);
}

#[test]
fn explicit_evict_only_drops_the_registry_reference() {
    let mut reg = registry_with(&["ios-10.3"], 4);
    let key = "ios-10.3".to_string();
    reg.acquire_step(&key);
    let held = reg.complete_load(&key, Ok(small_db(1))).unwrap();

    assert!(reg.evict(&key));
    assert!(!reg.evict(&key));
    assert_eq!(reg.check_health().cached_databases, 0);

    // resolution against the held share proceeds as before
    let queries = vec![Query {
        addr: 300,
        image_addr: 0,
        image_vmaddr: None,
        identity: ImageIdentity::ByDebugId(DebugId { value: 1 }),
    }];
    let out = resolve_batch(&held, &"arm64".to_string(), &queries);
    assert_eq!(out[0].as_ref().unwrap().symbol, "h");
}

#[test]
fn abandoning_waiters_cancels_only_the_last() {
    let mut reg = registry_with(&["ios-10.3"], 4);
    let key = "ios-10.3".to_string();

    assert!(matches!(reg.acquire_step(&key), AcquireStep::StartLoad));
    assert!(matches!(reg.acquire_step(&key), AcquireStep::Join));

    // one of the two waiters goes away: the flight lives on
    reg.abandon_flight(&key);
    assert_eq!(reg.check_health().loads_in_flight, 1);
    // the last waiter goes away: the flight is canceled
    reg.abandon_flight(&key);
    assert_eq!(reg.check_health().loads_in_flight, 0);

    // a fresh acquire starts over
    assert!(matches!(reg.acquire_step(&key), AcquireStep::StartLoad));
    assert_eq!(reg.load_start_count(), 2);
}
