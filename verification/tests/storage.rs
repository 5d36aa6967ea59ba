use std::sync::Arc;
use tz_service::parse::{parse_rfc3339, ParseError};
use tz_service::service::{create_datetime, health_message};
use tz_service::store::Store;

#[test]
fn store_grows_by_append_and_snapshots_in_order() {
    let mut store = Store::new();
    assert_eq!(store.len(), 0);
    let a = parse_rfc3339("2023-05-17T17:50:34+02:00").unwrap().instant;
    let b = parse_rfc3339("1999-12-31T23:59:59-05:00").unwrap().instant;
    store.append(a);
    store.append(b);
    assert_eq!(store.len(), 2);
    let snap = store.snapshot();
    assert_eq!(snap, vec![a, b]);
    // The snapshot is a copy: appending afterwards does not change it.
    store.append(a);
    assert_eq!(snap.len(), 2);
    assert_eq!(store.len(), 3);
}

#[test]
fn create_appends_exactly_on_success() {
    let mut store = Store::new();
    let p = create_datetime(&mut store, "2023-05-17T17:50:34+02:00").unwrap();
    assert_eq!(p.offset_secs, 7200);
    assert_eq!(store.len(), 1);
    assert_eq!(store.snapshot()[0], p.instant);
}

#[test]
fn rejected_input_leaves_the_store_untouched() {
    let mut store = Store::new();
    assert_eq!(
        create_datetime(&mut store, "2023-13-01T00:00:00Z"),
        Err(ParseError::FieldOutOfRange)
    );
    assert_eq!(
        create_datetime(&mut store, "not a datetime at all!!"),
        Err(ParseError::InvalidSyntax)
    );
    assert_eq!(create_datetime(&mut store, ""), Err(ParseError::TooShort));
    assert_eq!(store.len(), 0);
}

#[test]
fn concurrent_appends_lose_no_writes() {
    let runtime = tokio::runtime::Builder::new_multi_thread()
        .worker_threads(4)
        .build()
        .unwrap();
    let store = Arc::new(tokio::sync::RwLock::new(Store::new()));
    let instant = parse_rfc3339("2023-05-17T17:50:34+02:00").unwrap().instant;
    runtime.block_on(async {
        let mut handles = Vec::new();
        for _caller in 0..8 {
            let shared = store.clone();
            handles.push(tokio::spawn(async move {
                for _k in 0..25 {
                    shared.write().await.append(instant);
                }
            }));
        }
        for h in handles {
            h.await.unwrap();
        }
    });
    let total = runtime.block_on(async { store.read().await.len() });
    assert_eq!(total, 200);
}

#[test]
fn health_message_is_fixed() {
    assert_eq!(
        health_message().as_str(),
        "Building a simple API in Rust using Axum to handle time zones via Chrono-tz"
    );
}
