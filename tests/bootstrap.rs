use rdap::bootstrap::{
    asn_in_range, match_asn, match_domain, match_ip, BootstrapClient, BootstrapRegistry,
    RegistryKind, Service,
};
use rdap::{QueryType, RdapError, RdapRequest};

fn service(patterns: &[&str], urls: &[&str]) -> Service {
    Service {
        patterns: patterns.iter().map(|s| s.to_string()).collect(),
        urls: urls.iter().map(|s| s.to_string()).collect(),
    }
}

fn registry(services: Vec<Service>) -> BootstrapRegistry {
    BootstrapRegistry { version: "1.0".to_string(), publication: None, description: None, services }
}

#[test]
fn domain_registry_scenario() {
    let reg = registry(vec![
        service(&["com"], &["https://a.example/"]),
        service(&["net"], &["https://b.example/"]),
    ]);
    assert_eq!(match_domain(&reg, "foo.com"), vec!["https://a.example/".to_string()]);
    assert_eq!(match_domain(&reg, "foo.net"), vec!["https://b.example/".to_string()]);
    assert!(match_domain(&reg, "foo.org").is_empty());
}

#[test]
fn domain_match_normalises_and_prefers_longest_suffix() {
    let reg = registry(vec![
        service(&["UK"], &["https://uk.example/"]),
        service(&["co.uk"], &["https://co-uk.example/"]),
    ]);
    assert_eq!(match_domain(&reg, "Shop.CO.UK."), vec!["https://co-uk.example/".to_string()]);
    assert_eq!(match_domain(&reg, "gov.uk"), vec!["https://uk.example/".to_string()]);
}

#[test]
fn domain_match_later_service_wins_a_shared_pattern() {
    let reg = registry(vec![
        service(&["com"], &["https://first.example/"]),
        service(&["com"], &["https://second.example/"]),
    ]);
    assert_eq!(match_domain(&reg, "x.com"), vec!["https://second.example/".to_string()]);
}

#[test]
fn domain_match_drops_urls_that_do_not_parse() {
    let reg = registry(vec![service(&["com"], &["not a url", "https://ok.example/rdap"])]);
    assert_eq!(match_domain(&reg, "x.com"), vec!["https://ok.example/rdap".to_string()]);
}

#[test]
fn ip_first_match_wins_over_more_specific() {
    let reg = registry(vec![
        service(&["10.0.0.0/8"], &["https://wide.example/"]),
        service(&["10.1.0.0/16"], &["https://narrow.example/"]),
    ]);
    assert_eq!(match_ip(&reg, "10.1.2.3").unwrap(), vec!["https://wide.example/".to_string()]);
    assert!(match_ip(&reg, "11.0.0.1").unwrap().is_empty());
}

#[test]
fn ip_match_families_and_prefixes() {
    let reg = registry(vec![
        service(&["2001:db8::/32"], &["https://v6.example/"]),
        service(&["1.0.0.0/24"], &["https://v4.example/"]),
    ]);
    assert_eq!(match_ip(&reg, "2001:db8:1::5").unwrap(), vec!["https://v6.example/".to_string()]);
    assert_eq!(match_ip(&reg, "1.1").unwrap(), vec!["https://v4.example/".to_string()]);
    assert_eq!(match_ip(&reg, "1.0.0.0/24").unwrap(), vec!["https://v4.example/".to_string()]);
    assert!(match_ip(&reg, "2001:db9::1").unwrap().is_empty());
}

#[test]
fn ip_match_rejects_malformed_addresses() {
    let reg = registry(vec![]);
    assert!(matches!(match_ip(&reg, "not-an-ip"), Err(RdapError::InvalidQuery(_))));
    assert!(matches!(match_ip(&reg, "10.0.0.0/40"), Err(RdapError::InvalidQuery(_))));
}

#[test]
fn asn_range_bounds_are_inclusive() {
    assert!(asn_in_range(15000, "15000-16000"));
    assert!(asn_in_range(16000, "15000-16000"));
    assert!(asn_in_range(15169, "15000-16000"));
    assert!(!asn_in_range(14999, "15000-16000"));
    assert!(!asn_in_range(16001, "15000-16000"));
    assert!(asn_in_range(15169, "15169"));
    assert!(!asn_in_range(15170, "15169"));
    assert!(!asn_in_range(1, "x-y"));
}

#[test]
fn asn_match_first_service() {
    let reg = registry(vec![
        service(&["1-100", "15169"], &["https://one.example/"]),
        service(&["15000-16000"], &["https://two.example/"]),
    ]);
    assert_eq!(match_asn(&reg, "AS15169").unwrap(), vec!["https://one.example/".to_string()]);
    assert_eq!(match_asn(&reg, "as15170").unwrap(), vec!["https://two.example/".to_string()]);
    assert!(match_asn(&reg, "4294967295").unwrap().is_empty());
    assert!(matches!(match_asn(&reg, "AS4294967296"), Err(RdapError::InvalidQuery(_))));
    assert!(matches!(match_asn(&reg, "ASX"), Err(RdapError::InvalidQuery(_))));
}

#[test]
fn registry_selection() {
    let client = BootstrapClient::new();
    let kind = |t: QueryType, q: &str| client.registry_kind(&RdapRequest::new(t, q));
    assert_eq!(kind(QueryType::Domain, "example.com").unwrap(), RegistryKind::Dns);
    assert_eq!(kind(QueryType::Ip, "192.0.2.1").unwrap(), RegistryKind::Ipv4);
    assert_eq!(kind(QueryType::Ip, "2001:db8::1").unwrap(), RegistryKind::Ipv6);
    assert_eq!(kind(QueryType::Autnum, "AS1").unwrap(), RegistryKind::Asn);
    assert_eq!(
        kind(QueryType::Entity, "X").unwrap_err(),
        RdapError::Bootstrap("Entity queries require explicit server (-s/--server)".to_string())
    );
    assert_eq!(
        kind(QueryType::Help, "").unwrap_err(),
        RdapError::Bootstrap("This query type requires explicit server (-s/--server)".to_string())
    );
    assert_eq!(client.registry_url(RegistryKind::Ipv6).unwrap(), "https://data.iana.org/rdap/ipv6.json");
}

#[test]
fn match_registry_dispatches_on_kind() {
    let client = BootstrapClient::new();
    let reg = registry(vec![service(&["com"], &["https://a.example/"])]);
    let r = client.match_registry(&reg, &RdapRequest::new(QueryType::Domain, "x.com")).unwrap();
    assert_eq!(r, vec!["https://a.example/".to_string()]);
    assert!(client.match_registry(&reg, &RdapRequest::new(QueryType::Entity, "x")).is_err());
}

#[test]
fn malformed_queries_fail_before_any_registry() {
    let client = BootstrapClient::new();
    let kind = |t: QueryType, q: &str| client.registry_kind(&RdapRequest::new(t, q));
    assert_eq!(
        kind(QueryType::Ip, "300.1.2.3.4").unwrap_err(),
        RdapError::InvalidQuery("Invalid IP address: 300.1.2.3.4".to_string())
    );
    assert_eq!(
        kind(QueryType::Ip, "2001:db8::zz").unwrap_err(),
        RdapError::InvalidQuery("Invalid IP address: 2001:db8::zz".to_string())
    );
    assert_eq!(
        kind(QueryType::Autnum, "AS12x").unwrap_err(),
        RdapError::InvalidQuery("Invalid AS number: 12x".to_string())
    );
    assert_eq!(kind(QueryType::Ip, "10.0.0.0/8").unwrap(), RegistryKind::Ipv4);
}
