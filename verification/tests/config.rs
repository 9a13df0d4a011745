use magma::address::SocketAddress;
use magma::config::v1::{Config, ConfigV1, ProxyEntry, SelectionAlgorithm, LATEST_CONFIG_VERSION};
use magma::config::{FallbackMethod, MagmaConfig, Proxy, Route, SelectionAlgorithmKind};

fn address(last: u8, port: u16) -> SocketAddress {
    SocketAddress::new(format!("10.0.0.{}", last), port)
}

fn entry(addresses: &[u8], domains: &[&str], targets: &[u8]) -> ProxyEntry {
    ProxyEntry {
        address: None,
        addresses: addresses.iter().map(|a| address(*a, 25565)).collect(),
        domain: None,
        domains: domains.iter().map(|d| d.to_string()).collect(),
        target: None,
        targets: targets.iter().map(|t| address(*t, 30000)).collect(),
        selection_algorithm: None,
        fallback: None,
    }
}

fn route(from: &str, targets: &[u8], kind: SelectionAlgorithmKind) -> Route {
    Route {
        from: from.to_string(),
        to: targets.iter().map(|t| address(*t, 30000)).collect(),
        selection_algorithm: kind,
    }
}

fn proxy(listen: u8, routes: Vec<Route>) -> Proxy {
    Proxy {
        protocol_version: 761,
        listen_addr: address(listen, 25565),
        routes,
        fallback_method: FallbackMethod::Drop,
    }
}

fn build(proxies: Vec<ProxyEntry>) -> MagmaConfig {
    let config = ConfigV1 { version: 1, debug: false, proxies };
    assert!(config.is_latest());
    config.build()
}

#[test]
fn version_one_is_the_latest() {
    assert_eq!(LATEST_CONFIG_VERSION, 1);
    assert!(ConfigV1 { version: 1, debug: true, proxies: vec![] }.is_latest());
}

#[test]
fn empty_configuration() {
    let built = ConfigV1 { version: 1, debug: true, proxies: vec![] }.build();
    assert_eq!(built, MagmaConfig { debug: true, proxies: vec![] });
}

#[test]
fn one_entry_makes_one_proxy() {
    let built = build(vec![entry(&[1], &["a.example.com", "b.example.com"], &[7, 8])]);
    assert_eq!(
        built.proxies,
        vec![proxy(
            1,
            vec![
                route("a.example.com", &[7, 8], SelectionAlgorithmKind::RoundRobin),
                route("b.example.com", &[7, 8], SelectionAlgorithmKind::RoundRobin),
            ]
        )]
    );
    assert!(!built.debug);
}

#[test]
fn single_forms_win_over_lists() {
    let mut one = entry(&[1, 2], &["a", "b"], &[7, 8]);
    one.address = Some(address(3, 25565));
    one.domain = Some("c".to_string());
    one.target = Some(address(9, 30000));
    one.selection_algorithm = Some(SelectionAlgorithm::Random);
    let built = build(vec![one]);
    assert_eq!(built.proxies, vec![proxy(3, vec![route("c", &[9], SelectionAlgorithmKind::Random)])]);
}

#[test]
fn entry_accessors() {
    let mut one = entry(&[1, 2], &["a", "b"], &[7, 8]);
    assert_eq!(one.bound_addresses(), vec![address(1, 25565), address(2, 25565)]);
    assert_eq!(one.served_domains(), vec!["a".to_string(), "b".to_string()]);
    assert_eq!(one.routed_targets(), vec![address(7, 30000), address(8, 30000)]);
    assert_eq!(one.algorithm(), SelectionAlgorithmKind::RoundRobin);
    one.address = Some(address(3, 1));
    one.domain = Some("c".to_string());
    one.target = Some(address(4, 2));
    one.selection_algorithm = Some(SelectionAlgorithm::RoundRobin);
    assert_eq!(one.bound_addresses(), vec![address(3, 1)]);
    assert_eq!(one.served_domains(), vec!["c".to_string()]);
    assert_eq!(one.routed_targets(), vec![address(4, 2)]);
    assert_eq!(one.algorithm(), SelectionAlgorithmKind::RoundRobin);
    one.selection_algorithm = Some(SelectionAlgorithm::Random);
    assert_eq!(one.algorithm(), SelectionAlgorithmKind::Random);
    assert_eq!(SelectionAlgorithm::default(), SelectionAlgorithm::RoundRobin);
}

#[test]
fn entry_bound_to_two_addresses_makes_two_proxies() {
    let built = build(vec![entry(&[1, 2], &["a"], &[7])]);
    assert_eq!(
        built.proxies,
        vec![
            proxy(1, vec![route("a", &[7], SelectionAlgorithmKind::RoundRobin)]),
            proxy(2, vec![route("a", &[7], SelectionAlgorithmKind::RoundRobin)]),
        ]
    );
}

#[test]
fn entries_on_one_address_share_a_proxy() {
    let built = build(vec![entry(&[1], &["a"], &[7]), entry(&[2], &["x"], &[5]), entry(&[1], &["b"], &[8])]);
    assert_eq!(
        built.proxies,
        vec![
            proxy(
                1,
                vec![
                    route("a", &[7], SelectionAlgorithmKind::RoundRobin),
                    route("b", &[8], SelectionAlgorithmKind::RoundRobin),
                ]
            ),
            proxy(2, vec![route("x", &[5], SelectionAlgorithmKind::RoundRobin)]),
        ]
    );
}

#[test]
fn entry_that_claims_a_taken_domain_is_passed_over() {
    let built = build(vec![entry(&[1], &["a", "b"], &[7]), entry(&[1], &["c", "b"], &[8])]);
    assert_eq!(
        built.proxies,
        vec![proxy(
            1,
            vec![
                route("a", &[7], SelectionAlgorithmKind::RoundRobin),
                route("b", &[7], SelectionAlgorithmKind::RoundRobin),
            ]
        )]
    );
    // on another address the same domain is free
    let built = build(vec![entry(&[1], &["a"], &[7]), entry(&[2], &["a"], &[8])]);
    assert_eq!(built.proxies.len(), 2);
}

#[test]
fn entries_that_lack_something_are_passed_over() {
    let built = build(vec![
        entry(&[], &["a"], &[7]),
        entry(&[1], &[], &[7]),
        entry(&[1], &["a"], &[]),
        entry(&[2], &["b"], &[9]),
    ]);
    assert_eq!(built.proxies, vec![proxy(2, vec![route("b", &[9], SelectionAlgorithmKind::RoundRobin)])]);
}

#[test]
fn same_host_on_another_port_is_another_listener() {
    let mut first = entry(&[], &["a"], &[7]);
    first.address = Some(address(1, 25565));
    let mut second = entry(&[], &["a"], &[8]);
    second.address = Some(address(1, 25566));
    let built = build(vec![first, second]);
    assert_eq!(built.proxies.len(), 2);
    assert_eq!(built.proxies[0].listen_addr, address(1, 25565));
    assert_eq!(built.proxies[1].listen_addr, address(1, 25566));
}

#[test]
fn built_routes_all_have_targets_and_listeners_differ() {
    let built = build(vec![
        entry(&[1, 2, 1], &["a", "b"], &[7]),
        entry(&[2, 3], &["c"], &[8, 9]),
        entry(&[3], &["c"], &[4]),
        entry(&[4], &["d"], &[]),
    ]);
    for (i, proxy) in built.proxies.iter().enumerate() {
        for route in &proxy.routes {
            assert!(!route.to.is_empty());
        }
        for other in &built.proxies[i + 1..] {
            assert_ne!(proxy.listen_addr, other.listen_addr);
        }
    }
    assert_eq!(built.proxies.len(), 3);
    assert_eq!(built.proxies[0].routes.len(), 2);
    assert_eq!(built.proxies[1].routes.len(), 3);
    assert_eq!(built.proxies[2].routes.len(), 1);
}

#[test]
fn fallback_policy_comes_from_the_entry_that_makes_the_proxy() {
    let mut first = entry(&[1], &["a"], &[7]);
    first.fallback = Some("Unrecognised server".to_string());
    assert_eq!(first.fallback_method(), FallbackMethod::Status("Unrecognised server".to_string()));
    let mut second = entry(&[1, 2], &["b"], &[8]);
    second.fallback = Some("closed".to_string());
    let third = entry(&[3], &["c"], &[9]);
    assert_eq!(third.fallback_method(), FallbackMethod::Drop);
    let built = build(vec![first, second, third]);
    assert_eq!(built.proxies.len(), 3);
    assert_eq!(built.proxies[0].fallback_method, FallbackMethod::Status("Unrecognised server".to_string()));
    assert_eq!(built.proxies[0].routes.len(), 2);
    assert_eq!(built.proxies[1].fallback_method, FallbackMethod::Status("closed".to_string()));
    assert_eq!(built.proxies[2].fallback_method, FallbackMethod::Drop);
}
