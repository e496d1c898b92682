use selproxy::addr::Addr;
use selproxy::dns::{split_host_port, Dns, Query};

#[test]
fn bare_host_defaults_to_port_80() {
    let (name, port) = split_host_port(b"example.com").unwrap();
    assert_eq!(name, b"example.com".to_vec());
    assert_eq!(port, 80);
}

#[test]
fn host_with_port() {
    let (name, port) = split_host_port(b"example.com:8080").unwrap();
    assert_eq!(name, b"example.com".to_vec());
    assert_eq!(port, 8080);
}

#[test]
fn host_with_max_port() {
    let (name, port) = split_host_port(b"h:65535").unwrap();
    assert_eq!(name, b"h".to_vec());
    assert_eq!(port, 65535);
}

#[test]
fn bracketed_ipv6_with_port() {
    let (name, port) = split_host_port(b"[2001:db8::1]:443").unwrap();
    assert_eq!(name, b"2001:db8::1".to_vec());
    assert_eq!(port, 443);
}

#[test]
fn bracketed_ipv6_without_port_is_invalid() {
    // A bracketed literal must carry a `]:` port suffix to resolve.
    assert!(split_host_port(b"[2001:db8::1]").is_none());
}

#[test]
fn unterminated_bracket_is_invalid() {
    assert!(split_host_port(b"[2001:db8::1").is_none());
}

#[test]
fn port_out_of_range_is_invalid() {
    assert!(split_host_port(b"example.com:65536").is_none());
    assert!(split_host_port(b"example.com:99999999999999").is_none());
}

#[test]
fn port_not_numeric_is_invalid() {
    assert!(split_host_port(b"example.com:http").is_none());
    assert!(split_host_port(b"example.com:").is_none());
    assert!(split_host_port(b"[::1]:x0").is_none());
}

#[test]
fn port_leading_zeros_accepted() {
    let (name, port) = split_host_port(b"example.com:000080").unwrap();
    assert_eq!(name, b"example.com".to_vec());
    assert_eq!(port, 80);
}

#[test]
fn non_bracketed_splits_at_last_colon() {
    // Mirrors the platform resolver's host:port split at the last colon;
    // such a name then simply fails to resolve.
    let (name, port) = split_host_port(b"a:b:80").unwrap();
    assert_eq!(name, b"a:b".to_vec());
    assert_eq!(port, 80);
}

#[test]
fn resolver_miss_asks_for_lookup() {
    let dns = Dns::new();
    match dns.resolve(b"example.com:8080") {
        Query::Lookup(name, port) => {
            assert_eq!(name, b"example.com".to_vec());
            assert_eq!(port, 8080);
        },
        _ => panic!("an empty cache must ask for a system lookup"),
    }
}

#[test]
fn resolver_invalid_key() {
    let dns = Dns::new();
    assert!(matches!(dns.resolve(b"[::1]"), Query::Invalid));
}

#[test]
fn resolver_second_call_is_cache_hit() {
    // Resolver idempotence: after the first resolution's outcome is
    // recorded, the same key is answered from the cache with the same
    // address and no further lookup is requested.
    let mut dns = Dns::new();
    let addr = Addr::new_v4(93, 184, 216, 34, 80);
    match dns.resolve(b"example.com") {
        Query::Lookup(name, port) => {
            assert_eq!(name, b"example.com".to_vec());
            assert_eq!(port, 80);
            dns.insert(b"example.com", addr);
        },
        _ => panic!("first query must be a miss"),
    }
    match dns.resolve(b"example.com") {
        Query::Cached(a) => assert_eq!(a, addr),
        _ => panic!("second query must be a cache hit"),
    }
    match dns.resolve(b"example.com") {
        Query::Cached(a) => assert_eq!(a, addr),
        _ => panic!("every later query must stay a cache hit"),
    }
}

#[test]
fn resolver_keys_are_independent() {
    let mut dns = Dns::new();
    let a1 = Addr::new_v4(192, 0, 2, 1, 80);
    let a2 = Addr::new_v6(0, 1, 443);
    dns.insert(b"one.example", a1);
    dns.insert(b"two.example", a2);
    assert_eq!(dns.lookup(b"one.example"), Some(a1));
    assert_eq!(dns.lookup(b"two.example"), Some(a2));
    assert_eq!(dns.lookup(b"three.example"), None);
}

#[test]
fn resolver_last_writer_wins() {
    // Concurrent redundant resolutions may both insert; the later value
    // stands and the cache stays consistent.
    let mut dns = Dns::new();
    let a1 = Addr::new_v4(192, 0, 2, 1, 80);
    let a2 = Addr::new_v4(192, 0, 2, 2, 80);
    dns.insert(b"same.example", a1);
    dns.insert(b"same.example", a2);
    assert_eq!(dns.lookup(b"same.example"), Some(a2));
}
