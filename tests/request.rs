use rdap::request::strip_as_prefix;
use rdap::{QueryType, RdapRequest};

#[test]
fn test_detect_type() {
    assert_eq!(RdapRequest::detect_type("example.com").unwrap(), QueryType::Domain);
    assert_eq!(RdapRequest::detect_type("192.0.2.1").unwrap(), QueryType::Ip);
    assert_eq!(RdapRequest::detect_type("2001:db8::1").unwrap(), QueryType::Ip);
    assert_eq!(RdapRequest::detect_type("AS15169").unwrap(), QueryType::Autnum);
    assert_eq!(RdapRequest::detect_type("15169").unwrap(), QueryType::Autnum);
}

#[test]
fn as_number_detected_in_any_case() {
    assert_eq!(RdapRequest::detect_type("AS15169").unwrap(), QueryType::Autnum);
    assert_eq!(RdapRequest::detect_type("as15169").unwrap(), QueryType::Autnum);
    assert_eq!(RdapRequest::detect_type("aS15169").unwrap(), QueryType::Autnum);
    assert_eq!(RdapRequest::detect_type("15169").unwrap(), QueryType::Autnum);
}

#[test]
fn detect_type_edge_cases() {
    assert_eq!(RdapRequest::detect_type("1.1").unwrap(), QueryType::Ip);
    assert_eq!(RdapRequest::detect_type("10.0.0.0/8").unwrap(), QueryType::Domain);
    assert_eq!(RdapRequest::detect_type("2001:db8::/32").unwrap(), QueryType::Ip);
    assert_eq!(RdapRequest::detect_type("asx").unwrap(), QueryType::Domain);
    assert_eq!(RdapRequest::detect_type("").unwrap(), QueryType::Autnum);
}

#[test]
fn strip_as_prefix_removes_one_prefix() {
    let s: String = strip_as_prefix("ASAS1").into_iter().collect();
    assert_eq!(s, "AS1");
    let s: String = strip_as_prefix("as64512").into_iter().collect();
    assert_eq!(s, "64512");
    let s: String = strip_as_prefix("64512").into_iter().collect();
    assert_eq!(s, "64512");
}

#[test]
fn build_url_paths() {
    let base = "https://rdap.example.net/rdap/";
    let r = RdapRequest::new(QueryType::Domain, "example.com");
    assert_eq!(r.build_url(base).unwrap(), "https://rdap.example.net/rdap/domain/example.com");
    let r = RdapRequest::new(QueryType::Ip, "192.0.2.1");
    assert_eq!(r.build_url(base).unwrap(), "https://rdap.example.net/rdap/ip/192.0.2.1");
    let r = RdapRequest::new(QueryType::Autnum, "AS15169");
    assert_eq!(r.build_url(base).unwrap(), "https://rdap.example.net/rdap/autnum/15169");
    let r = RdapRequest::new(QueryType::Help, "anything");
    assert_eq!(r.build_url(base).unwrap(), "https://rdap.example.net/rdap/help");
    let r = RdapRequest::new(QueryType::NameserverSearchByIp, "192.0.2.53");
    assert_eq!(r.build_url(base).unwrap(), "https://rdap.example.net/rdap/nameservers?ip=192.0.2.53");
}

#[test]
fn build_url_percent_encodes_names() {
    let base = "https://rdap.example.net/";
    let r = RdapRequest::new(QueryType::Entity, "ABC 123/x");
    assert_eq!(r.build_url(base).unwrap(), "https://rdap.example.net/entity/ABC%20123%2Fx");
    let r = RdapRequest::new(QueryType::DomainSearch, "exa*.com");
    assert_eq!(r.build_url(base).unwrap(), "https://rdap.example.net/domains?name=exa%2A.com");
    let r = RdapRequest::new(QueryType::EntitySearchByHandle, "é");
    assert_eq!(r.build_url(base).unwrap(), "https://rdap.example.net/entities?handle=%C3%A9");
    assert_eq!(r.path(), "entities?handle=%C3%A9");
}

#[test]
fn build_url_rejects_a_bad_base() {
    let r = RdapRequest::new(QueryType::Domain, "example.com");
    assert!(matches!(r.build_url("not a url"), Err(rdap::RdapError::InvalidUrl(_))));
}

#[test]
fn request_builders() {
    let r = RdapRequest::new(QueryType::Domain, "example.com").with_server("https://rdap.example/".to_string());
    assert_eq!(r.query, "example.com");
    assert_eq!(r.server, Some("https://rdap.example/".to_string()));
    assert_eq!(QueryType::DomainSearchByNameserverIp.name(), "domain-search-by-nameserver-ip");
    assert_eq!(QueryType::Autnum.name(), "autnum");
}
