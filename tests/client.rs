use rdap::client::{
    classify_document, classify_status, find_referral, follows_referrals, keep_referral, ladder_applies,
    plan_servers, server_error, should_follow, Attempt, Ipv6Ladder, RecordKind, ServerPlan,
    ServerWalk, StatusClass, WalkStep,
};
use rdap::config::{TldList, TldOverrides};
use rdap::{Contact, ErrorResponse, Link, QueryType, RdapError, RdapRequest};

fn link(rel: Option<&str>, href: &str, link_type: Option<&str>) -> Link {
    Link {
        value: None,
        rel: rel.map(|s| s.to_string()),
        href: href.to_string(),
        hreflang: vec![],
        title: None,
        media: None,
        link_type: link_type.map(|s| s.to_string()),
    }
}

fn keys(ks: &[&str]) -> Vec<String> {
    ks.iter().map(|s| s.to_string()).collect()
}

#[test]
fn not_found_short_circuits() {
    let (mut walk, step) = ServerWalk::start(2);
    assert!(matches!(step, WalkStep::Try(0)));
    let step = walk.on_attempt(Attempt::NotFound);
    assert!(matches!(step, WalkStep::Fail { error: RdapError::NotFound, .. }));
}

#[test]
fn failures_move_to_next_server_and_last_error_stands() {
    let (mut walk, _) = ServerWalk::start(2);
    let e1 = RdapError::Other("HTTP error: 500".to_string());
    let step = walk.on_attempt(Attempt::Failed { status: Some(500), error: e1 });
    assert!(matches!(step, WalkStep::Try(1)));
    let e2 = RdapError::Other("HTTP error: 503".to_string());
    let step = walk.on_attempt(Attempt::Failed { status: Some(503), error: e2.clone() });
    match step {
        WalkStep::Fail { error, status } => {
            assert_eq!(error, e2);
            assert_eq!(status, Some(503));
        }
        _ => panic!("expected failure"),
    }
}

#[test]
fn success_stops_walk_and_empty_list_fails() {
    let (mut walk, _) = ServerWalk::start(3);
    assert!(matches!(walk.on_attempt(Attempt::Success), WalkStep::Succeeded(0)));
    let (_, step) = ServerWalk::start(0);
    assert!(matches!(step, WalkStep::Fail { error: RdapError::NoWorkingServers, status: None }));
}

#[test]
fn status_classes() {
    assert_eq!(classify_status(200), StatusClass::Success);
    assert_eq!(classify_status(299), StatusClass::Success);
    assert_eq!(classify_status(404), StatusClass::NotFound);
    assert_eq!(classify_status(400), StatusClass::Failure);
    assert_eq!(classify_status(302), StatusClass::Failure);
}

#[test]
fn server_error_from_body_or_status() {
    let body = ErrorResponse {
        conformance: vec![],
        notices: vec![],
        error_code: None,
        title: None,
        description: vec!["d".to_string()],
        lang: None,
    };
    match server_error(500, Some(body)) {
        RdapError::ServerError { code, title, description } => {
            assert_eq!(code, 500);
            assert_eq!(title, "Unknown error");
            assert_eq!(description, vec!["d".to_string()]);
        }
        e => panic!("unexpected {:?}", e),
    }
    assert_eq!(server_error(503, None), RdapError::Other("HTTP error: 503".to_string()));
}

#[test]
fn ipv6_ladder_order_and_host_error() {
    let host_error = RdapError::Other("HTTP error: 400".to_string());
    let addr: u128 = 0x2001_0db8_0000_0000_0000_0000_0000_0001;
    let (ladder, q) = Ipv6Ladder::start(addr, host_error.clone());
    assert_eq!(q, "2001:db8:0:0:0:0:0:0/64");
    let (ladder, q) = ladder.on_failure().unwrap();
    assert_eq!(q, "2001:db8:0:0:0:0:0:0/48");
    let (ladder, q) = ladder.on_failure().unwrap();
    assert_eq!(q, "2001:db8:0:0:0:0:0:0/32");
    assert_eq!(ladder.on_failure().unwrap_err(), host_error);
}

#[test]
fn ipv6_ladder_masks_host_bits() {
    let addr: u128 = 0x2001_0db8_abcd_1234_5678_0000_0000_0001;
    let (_, q) = Ipv6Ladder::start(addr, RdapError::Timeout);
    assert_eq!(q, "2001:db8:abcd:1234:0:0:0:0/64");
}

#[test]
fn ladder_applies_only_to_ipv6_hosts_rejected_with_400() {
    let host = RdapRequest::new(QueryType::Ip, "2001:db8::1");
    assert_eq!(ladder_applies(&host, Some(400)), Some(0x2001_0db8_0000_0000_0000_0000_0000_0001));
    assert_eq!(ladder_applies(&host, Some(500)), None);
    assert_eq!(ladder_applies(&RdapRequest::new(QueryType::Ip, "2001:db8::/32"), Some(400)), None);
    assert_eq!(ladder_applies(&RdapRequest::new(QueryType::Ip, "192.0.2.1"), Some(400)), None);
}

#[test]
fn referral_to_same_host_is_not_followed() {
    assert!(!should_follow("https://rdap.example.com/domain/x.com", "https://rdap.example.com/"));
    assert!(!should_follow("https://RDAP.Example.com:8443/domain/x.com", "http://rdap.example.com/rdap/"));
    assert!(should_follow("https://rdap.registrar.test/domain/x.com", "https://rdap.example.com/domain/x.com"));
    assert!(!should_follow("not a url", "https://rdap.example.com/"));
}

#[test]
fn referral_search_order() {
    let own = vec![
        link(Some("self"), "https://rdap.registry.test/domain/x.com", Some("application/rdap+json")),
        link(Some("related"), "https://rdap.registrar.test/domain/x.com", None),
    ];
    assert_eq!(find_referral(&own, &vec![]).as_deref(), Some("https://rdap.registrar.test/domain/x.com"));

    let contacts = vec![
        Contact { roles: vec!["technical".to_string()], links: vec![link(Some("related"), "https://tech.test/domain/x", None)] },
        Contact {
            roles: vec!["registrar".to_string()],
            links: vec![link(Some("related"), "https://reg.test/x", Some("application/rdap+json"))],
        },
    ];
    let none_own = vec![link(Some("related"), "https://about.test/", Some("text/html"))];
    assert_eq!(find_referral(&none_own, &contacts).as_deref(), Some("https://reg.test/x"));
    assert_eq!(find_referral(&none_own, &vec![]), None);
}

#[test]
fn referral_failure_is_dropped() {
    assert_eq!(keep_referral::<u8>(Err(RdapError::Timeout)), None);
    assert_eq!(keep_referral::<u8>(Ok(7)), Some(7));
}

#[test]
fn referrals_only_for_domain_records() {
    let domain = RdapRequest::new(QueryType::Domain, "example.com");
    assert!(follows_referrals(&domain, true, RecordKind::Domain));
    assert!(!follows_referrals(&domain, false, RecordKind::Domain));
    assert!(!follows_referrals(&domain, true, RecordKind::Error));
    assert!(!follows_referrals(&RdapRequest::new(QueryType::Ip, "192.0.2.1"), true, RecordKind::Domain));
}

#[test]
fn error_body_classifies_as_error() {
    let r = classify_document(true, &keys(&["errorCode", "title"]), None).unwrap();
    assert_eq!(r, RecordKind::Error);
}

#[test]
fn classification_order() {
    assert_eq!(classify_document(true, &keys(&["domainSearchResults"]), None).unwrap(), RecordKind::DomainSearch);
    assert_eq!(
        classify_document(true, &keys(&["objectClassName"]), Some("ip network".to_string())).unwrap(),
        RecordKind::IpNetwork
    );
    assert_eq!(
        classify_document(true, &keys(&["objectClassName", "errorCode"]), Some("domain".to_string())).unwrap(),
        RecordKind::Error
    );
    assert_eq!(classify_document(true, &keys(&["notices"]), None).unwrap(), RecordKind::Help);
    assert_eq!(classify_document(true, &keys(&[]), Some("other".to_string())).unwrap(), RecordKind::Help);
    assert!(matches!(classify_document(false, &keys(&[]), None), Err(RdapError::Json(_))));
}

#[test]
fn server_planning() {
    let mut overrides = TldOverrides::new();
    overrides.insert("io".to_string(), "https://io.example/".to_string());
    let tlds = TldList::parse("COM\nIO\n");
    let plan = |r: RdapRequest| plan_servers(&r, &overrides, &tlds);

    match plan(RdapRequest::new(QueryType::Domain, "io")).unwrap() {
        ServerPlan::Servers(v) => assert_eq!(v, vec!["https://rdap.iana.org/".to_string()]),
        _ => panic!("expected the IANA server"),
    }
    match plan(RdapRequest::new(QueryType::Domain, "x.io")).unwrap() {
        ServerPlan::Servers(v) => assert_eq!(v, vec!["https://io.example/".to_string()]),
        _ => panic!("expected the override"),
    }
    assert!(matches!(plan(RdapRequest::new(QueryType::Domain, "x.com")).unwrap(), ServerPlan::Fetch(_)));
    let explicit = RdapRequest::new(QueryType::Entity, "H").with_server("https://s.example/".to_string());
    match plan(explicit).unwrap() {
        ServerPlan::Servers(v) => assert_eq!(v, vec!["https://s.example/".to_string()]),
        _ => panic!("expected the explicit server"),
    }
    assert!(matches!(plan(RdapRequest::new(QueryType::Entity, "H")), Err(RdapError::Bootstrap(_))));
    assert!(matches!(plan(RdapRequest::new(QueryType::Ip, "1.2.3.4.5.6")), Err(RdapError::InvalidQuery(_))));
    assert!(matches!(plan(RdapRequest::new(QueryType::Autnum, "ASX")), Err(RdapError::InvalidQuery(_))));
    assert!(matches!(plan(RdapRequest::new(QueryType::Autnum, "AS15169")).unwrap(), ServerPlan::Fetch(_)));
}
