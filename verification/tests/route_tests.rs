use selproxy::addr::Addr;
use selproxy::config::{worker_count, App, Hosts, Route};

fn test_app() -> App {
    let mut hosts = Hosts::new();
    hosts.add(b"example.com");
    hosts.add(b"MIXED.Example.ORG");
    App { proxy: Addr::new_v4(10, 0, 0, 1, 3128), hosts, debug: false }
}

#[test]
fn configured_host_routes_proxy() {
    let app = test_app();
    assert_eq!(app.route(b"example.com"), Route::Proxy);
}

#[test]
fn configured_host_any_casing_routes_proxy() {
    // The set entry was configured with mixed case; the request side is
    // lowercased before routing. Both sides meet in lowercase.
    let app = test_app();
    assert_eq!(app.route(b"mixed.example.org"), Route::Proxy);
}

#[test]
fn unconfigured_host_routes_direct() {
    let app = test_app();
    assert_eq!(app.route(b"other.com"), Route::Direct);
    assert_eq!(app.route(b"sub.example.com"), Route::Direct);
    assert_eq!(app.route(b""), Route::Direct);
}

#[test]
fn membership_is_exact_not_substring() {
    let app = test_app();
    assert_eq!(app.route(b"example.com.evil"), Route::Direct);
    assert_eq!(app.route(b"xample.com"), Route::Direct);
}

#[test]
fn host_set_membership() {
    let mut hosts = Hosts::new();
    assert_eq!(hosts.len(), 0);
    hosts.add(b"A.B");
    assert!(hosts.contains(b"a.b"));
    assert!(!hosts.contains(b"A.B"));
    assert_eq!(hosts.len(), 1);
    assert_eq!(hosts.entry(0).as_slice(), b"a.b");
}

#[test]
fn worker_count_requested_wins() {
    assert_eq!(worker_count(4, Some(16)), 4);
    assert_eq!(worker_count(1, None), 1);
}

#[test]
fn worker_count_defaults_to_parallelism() {
    assert_eq!(worker_count(0, Some(8)), 8);
    assert_eq!(worker_count(0, None), 1);
}

#[test]
fn worker_count_capped() {
    assert_eq!(worker_count(500, Some(4)), 128);
    assert_eq!(worker_count(0, Some(1000)), 128);
    assert_eq!(worker_count(128, None), 128);
    assert_eq!(worker_count(129, None), 128);
}
