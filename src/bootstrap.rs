//! Bootstrap registries and the matching of a query to its authoritative servers.

use vstd::prelude::*;
use vstd::string::StringExecFns;
use crate::error::RdapError;
use crate::ip::{cidr_contains, cidr_holds, has_char, query_address, read_query_address, IpAddress};
use crate::request::{strip_as_prefix, without_as_prefix, QueryType, RdapRequest};
use crate::text::{
    all_digits, chars_of, decimal_of, digit_char, digit_value, digits_value, find_char, is_digit, unsigned_body, is_first_index, lower_of, lowercase, parse_u32, parsed_u32, slice_chars, decimal_chars,
    string_of, substring,
};
use crate::urls::{join_url, joined_url, parsed_urls, valid_urls, views};

verus! {

/// One service of a bootstrap registry: the patterns it covers and its base URLs,
/// the first preferred.
#[derive(Debug, Clone)]
pub struct Service {
    pub patterns: Vec<String>,
    pub urls: Vec<String>,
}

/// A bootstrap registry document; its services are matched in document order.
#[derive(Debug, Clone)]
pub struct BootstrapRegistry {
    pub version: String,
    pub publication: Option<String>,
    pub description: Option<String>,
    pub services: Vec<Service>,
}

/// The four registries, one for each family of query.
#[derive(Debug, Clone, Copy, PartialEq, Eq, Structural)]
pub enum RegistryKind {
    Dns,
    Ipv4,
    Ipv6,
    Asn,
}

pub open spec fn registry_file_name(k: RegistryKind) -> Seq<char> {
    match k {
        RegistryKind::Dns => "dns.json"@,
        RegistryKind::Ipv4 => "ipv4.json"@,
        RegistryKind::Ipv6 => "ipv6.json"@,
        RegistryKind::Asn => "asn.json"@,
    }
}

/// The registry that serves a query of kind `t`, when one does.
pub open spec fn registry_for(t: QueryType, q: Seq<char>) -> Option<RegistryKind> {
    match t {
        QueryType::Domain => Some(RegistryKind::Dns),
        QueryType::Ip => if has_char(q, ':') {
            Some(RegistryKind::Ipv6)
        } else {
            Some(RegistryKind::Ipv4)
        },
        QueryType::Autnum => Some(RegistryKind::Asn),
        _ => None,
    }
}

// ---- domains ----

/// `s` without its trailing dots.
pub open spec fn strip_trailing_dots(s: Seq<char>) -> Seq<char>
    decreases s.len(),
{
    if s.len() > 0 && s.last() == '.' {
        strip_trailing_dots(s.drop_last())
    } else {
        s
    }
}

/// A domain as it is matched: trailing dots removed, then lower-cased.
pub open spec fn normalized_domain(q: Seq<char>) -> Seq<char> {
    lower_of(strip_trailing_dots(q))
}

/// `k` is where a label of `d` starts, so `d` from `k` on is one of its suffixes.
pub open spec fn is_label_start(d: Seq<char>, k: int) -> bool {
    k == 0 || (1 <= k <= d.len() && d[k - 1] == '.')
}

pub open spec fn suffix_from(d: Seq<char>, k: int) -> Seq<char> {
    d.subrange(k, d.len() as int)
}

/// Some pattern of `s`, lower-cased, is `key`.
pub open spec fn service_has_key(s: Service, key: Seq<char>) -> bool {
    exists|j: int| 0 <= j < s.patterns@.len() && lower_of(#[trigger] s.patterns@[j]@) == key
}

pub open spec fn some_service_has_key(services: Seq<Service>, key: Seq<char>) -> bool {
    exists|i: int| 0 <= i < services.len() && service_has_key(#[trigger] services[i], key)
}

/// Service `i` is the last one that has `key`: the one a map built in document order keeps.
pub open spec fn last_with_key(services: Seq<Service>, key: Seq<char>, i: int) -> bool {
    0 <= i < services.len() && service_has_key(services[i], key) && forall|i2: int|
        i < i2 < services.len() ==> !service_has_key(#[trigger] services[i2], key)
}

/// The suffix of `d` from `k` is the longest suffix that some service has.
pub open spec fn longest_domain_match(services: Seq<Service>, d: Seq<char>, k: int) -> bool {
    is_label_start(d, k) && some_service_has_key(services, suffix_from(d, k)) && forall|k2: int|
        0 <= k2 < k && is_label_start(d, k2) ==> !some_service_has_key(
            services,
            #[trigger] suffix_from(d, k2),
        )
}

/// What the domain matcher returns for the normalised domain `d`.
pub open spec fn domain_match_result(services: Seq<Service>, d: Seq<char>, r: Seq<Seq<char>>) -> bool {
    (exists|k: int, i: int|
        #![trigger longest_domain_match(services, d, k), last_with_key(services, suffix_from(d, k), i)]
        longest_domain_match(services, d, k) && last_with_key(services, suffix_from(d, k), i) && r
            == parsed_urls(services[i].urls@)) || ((forall|k: int|
        is_label_start(d, k) ==> !some_service_has_key(services, #[trigger] suffix_from(d, k))) && r
        == Seq::<Seq<char>>::empty())
}

// ---- IP networks ----

pub open spec fn service_has_cidr(s: Service, a: IpAddress) -> bool {
    exists|j: int| 0 <= j < s.patterns@.len() && cidr_contains(#[trigger] s.patterns@[j]@, a)
}

/// What the IP matcher returns for address `a`: the URLs of the first service
/// with a block that contains it, or none.
pub open spec fn ip_match_result(services: Seq<Service>, a: IpAddress, r: Seq<Seq<char>>) -> bool {
    (exists|i: int|
        0 <= i < services.len() && service_has_cidr(services[i], a) && (forall|i2: int|
            0 <= i2 < i ==> !service_has_cidr(#[trigger] services[i2], a)) && r == parsed_urls(
            #[trigger] services[i].urls@,
        )) || ((forall|i: int|
        0 <= i < services.len() ==> !service_has_cidr(#[trigger] services[i], a)) && r == Seq::<
        Seq<char>,
    >::empty())
}

// ---- AS numbers ----

/// `asn` falls in the pattern: an inclusive `lo-hi` range, or a single number.
pub open spec fn asn_range_matches(asn: u32, pattern: Seq<char>) -> bool {
    if has_char(pattern, '-') {
        let i = choose|i: int| is_first_index(pattern, '-', i);
        match (
            parsed_u32(pattern.subrange(0, i)),
            parsed_u32(pattern.subrange(i + 1, pattern.len() as int)),
        ) {
            (Some(lo), Some(hi)) => lo <= asn && asn <= hi,
            _ => false,
        }
    } else {
        parsed_u32(pattern) == Some(asn)
    }
}

pub open spec fn service_has_asn(s: Service, asn: u32) -> bool {
    exists|j: int| 0 <= j < s.patterns@.len() && asn_range_matches(asn, #[trigger] s.patterns@[j]@)
}

/// What the AS matcher returns for `asn`: the URLs of the first service with a
/// pattern that holds it, or none.
pub open spec fn asn_match_result(services: Seq<Service>, asn: u32, r: Seq<Seq<char>>) -> bool {
    (exists|i: int|
        0 <= i < services.len() && service_has_asn(services[i], asn) && (forall|i2: int|
            0 <= i2 < i ==> !service_has_asn(#[trigger] services[i2], asn)) && r == parsed_urls(
            #[trigger] services[i].urls@,
        )) || ((forall|i: int|
        0 <= i < services.len() ==> !service_has_asn(#[trigger] services[i], asn)) && r == Seq::<
        Seq<char>,
    >::empty())
}

/// The AS number an autnum query names, if it names one.
pub open spec fn query_asn(q: Seq<char>) -> Option<u32> {
    parsed_u32(without_as_prefix(q))
}

/// The invalid-query message of an IP query whose address is malformed, or
/// of an AS query whose number is; none for any other query.
pub open spec fn malformed_query_message(t: QueryType, q: Seq<char>) -> Option<Seq<char>> {
    match t {
        QueryType::Ip => if query_address(q) is None {
            Some("Invalid IP address: "@ + q)
        } else {
            None
        },
        QueryType::Autnum => if query_asn(q) is None {
            Some("Invalid AS number: "@ + without_as_prefix(q))
        } else {
            None
        },
        _ => None,
    }
}

/// The message for a query kind that needs an explicit server.
pub open spec fn explicit_server_message(t: QueryType) -> Seq<char> {
    if t == QueryType::Entity {
        "Entity queries require explicit server (-s/--server)"@
    } else {
        "This query type requires explicit server (-s/--server)"@
    }
}

} // verus!

verus! {

/// The characters of `cs` without its trailing dots.
pub fn strip_dots(cs: &Vec<char>) -> (r: Vec<char>)
    ensures
        r@ == strip_trailing_dots(cs@),
{
    let mut k: usize = cs.len();
    assert(cs@.subrange(0, k as int) =~= cs@);
    while k > 0 && cs[k - 1] == '.'
        invariant
            k <= cs@.len(),
            strip_trailing_dots(cs@) == strip_trailing_dots(cs@.subrange(0, k as int)),
        decreases k,
    {
        assert(cs@.subrange(0, k as int).drop_last() =~= cs@.subrange(0, k - 1));
        k = k - 1;
    }
    slice_chars(cs, 0, k)
}

/// Whether some pattern of `s`, lower-cased, is `key`.
pub fn has_key(s: &Service, key: &String) -> (r: bool)
    ensures
        r == service_has_key(*s, key@),
{
    let mut j: usize = 0;
    while j < s.patterns.len()
        invariant
            j <= s.patterns@.len(),
            forall|j2: int| 0 <= j2 < j ==> lower_of(#[trigger] s.patterns@[j2]@) != key@,
        decreases s.patterns@.len() - j,
    {
        let low = lowercase(s.patterns[j].as_str());
        if low == *key {
            return true;
        }
        j = j + 1;
    }
    false
}

/// The last service that has `key`, if any.
pub fn last_service_with_key(services: &Vec<Service>, key: &String) -> (r: Option<usize>)
    ensures
        r matches Some(i) ==> last_with_key(services@, key@, i as int),
        r is None ==> !some_service_has_key(services@, key@),
{
    let mut i: usize = services.len();
    while i > 0
        invariant
            i <= services@.len(),
            forall|i2: int| i <= i2 < services@.len() ==> !service_has_key(#[trigger] services@[i2], key@),
        decreases i,
    {
        if has_key(&services[i - 1], key) {
            return Some(i - 1);
        }
        i = i - 1;
    }
    None
}

/// The service that the suffix of `d` from `k` selects, if `k` starts a label.
fn service_for_suffix(services: &Vec<Service>, d: &Vec<char>, k: usize) -> (r: Option<usize>)
    requires
        k <= d@.len(),
    ensures
        r matches Some(i) ==> is_label_start(d@, k as int) && last_with_key(services@, suffix_from(d@, k as int), i as int),
        r is None ==> !(is_label_start(d@, k as int) && some_service_has_key(services@, suffix_from(d@, k as int))),
{
    if k == 0 || d[k - 1] == '.' {
        let key = substring(d, k, d.len());
        last_service_with_key(services, &key)
    } else {
        None
    }
}

/// The base URLs of the servers for a domain: those of the service whose
/// pattern is the longest suffix of the domain, trailing dots removed and
/// lower-cased (a later service wins a pattern that two share), or none.
pub fn match_domain(registry: &BootstrapRegistry, domain: &str) -> (r: Vec<String>)
    ensures
        domain_match_result(registry.services@, normalized_domain(domain@), views(r@)),
{
    let services = &registry.services;
    let cs = chars_of(domain);
    let stripped = strip_dots(&cs);
    let plain = string_of(stripped.as_slice());
    let low = lowercase(plain.as_str());
    let d = chars_of(low.as_str());
    let ghost dv = normalized_domain(domain@);
    assert(d@ == dv);
    let n = d.len();
    let mut k: usize = 0;
    while k < n
        invariant
            n == d@.len(),
            d@ == normalized_domain(domain@),
            services@ == registry.services@,
            k <= n,
            forall|k2: int| 0 <= k2 < k && is_label_start(d@, k2) ==> !some_service_has_key(
                services@,
                #[trigger] suffix_from(d@, k2),
            ),
        decreases n - k,
    {
        match service_for_suffix(services, &d, k) {
            Some(i) => {
                let r = valid_urls(&services[i].urls);
                assert(longest_domain_match(services@, d@, k as int));
            assert(last_with_key(services@, suffix_from(d@, k as int), i as int));
            assert(views(r@) == parsed_urls(services@[i as int].urls@));
            assert(domain_match_result(services@, d@, views(r@)));
                return r;
            },
            None => {},
        }
        k = k + 1;
    }
    match service_for_suffix(services, &d, n) {
        Some(i) => {
            let r = valid_urls(&services[i].urls);
            assert(longest_domain_match(services@, d@, n as int));
            assert(last_with_key(services@, suffix_from(d@, n as int), i as int));
            assert(views(r@) == parsed_urls(services@[i as int].urls@));
            assert(domain_match_result(services@, d@, views(r@)));
            r
        },
        None => {
            let r: Vec<String> = Vec::new();
            assert(views(r@) =~= Seq::<Seq<char>>::empty());
            assert forall|k2: int| is_label_start(d@, k2) implies !some_service_has_key(
                services@,
                #[trigger] suffix_from(d@, k2),
            ) by {
                if k2 < n as int {
                } else if k2 > n as int {
                }
            }
            r
        },
    }
}

} // verus!

verus! {

/// Whether `asn` falls in the pattern: an inclusive `lo-hi` range, or a single number.
pub fn asn_in_range(asn: u32, pattern: &str) -> (r: bool)
    ensures
        r == asn_range_matches(asn, pattern@),
{
    let cs = chars_of(pattern);
    let n = cs.len();
    match find_char(&cs, '-') {
        None => {
            assert(!has_char(cs@, '-'));
            match parse_u32(&cs) {
                Some(v) => v == asn,
                None => false,
            }
        },
        Some(i) => {
            assert(has_char(cs@, '-'));
            assert forall|k: int| is_first_index(cs@, '-', k) implies k == i by {
                if k < i {
                    assert(cs@[k] != '-');
                } else if k > i {
                    assert(cs@[i as int] != '-');
                }
            }
            let lo = slice_chars(&cs, 0, i);
            let hi = slice_chars(&cs, i + 1, n);
            match (parse_u32(&lo), parse_u32(&hi)) {
                (Some(l), Some(h)) => l <= asn && asn <= h,
                _ => false,
            }
        },
    }
}

fn has_cidr(s: &Service, a: IpAddress) -> (r: bool)
    ensures
        r == service_has_cidr(*s, a),
{
    let mut j: usize = 0;
    while j < s.patterns.len()
        invariant
            j <= s.patterns@.len(),
            forall|j2: int| 0 <= j2 < j ==> !cidr_contains(#[trigger] s.patterns@[j2]@, a),
        decreases s.patterns@.len() - j,
    {
        if cidr_holds(s.patterns[j].as_str(), a) {
            return true;
        }
        j = j + 1;
    }
    false
}

fn has_asn(s: &Service, asn: u32) -> (r: bool)
    ensures
        r == service_has_asn(*s, asn),
{
    let mut j: usize = 0;
    while j < s.patterns.len()
        invariant
            j <= s.patterns@.len(),
            forall|j2: int| 0 <= j2 < j ==> !asn_range_matches(asn, #[trigger] s.patterns@[j2]@),
        decreases s.patterns@.len() - j,
    {
        if asn_in_range(asn, s.patterns[j].as_str()) {
            return true;
        }
        j = j + 1;
    }
    false
}

/// The base URLs of the servers for an IP query: those of the first service,
/// in document order, with a block that contains the address (the network
/// address for a query written as a block). A malformed address is an
/// invalid-query error.
pub fn match_ip(registry: &BootstrapRegistry, ip: &str) -> (r: Result<Vec<String>, RdapError>)
    ensures
        r is Err <==> query_address(ip@) is None,
        r matches Err(e) ==> (e matches RdapError::InvalidQuery(m) && m@ == "Invalid IP address: "@
            + ip@),
        r matches Ok(v) ==> ip_match_result(registry.services@, query_address(ip@)->0, views(v@)),
{
    let a = match read_query_address(ip) {
        Some(a) => a,
        None => {
            return Err(RdapError::InvalidQuery(String::from_str("Invalid IP address: ").concat(ip)));
        },
    };
    let services = &registry.services;
    let mut i: usize = 0;
    while i < services.len()
        invariant
            services@ == registry.services@,
            query_address(ip@) == Some(a),
            i <= services@.len(),
            forall|i2: int| 0 <= i2 < i ==> !service_has_cidr(#[trigger] services@[i2], a),
        decreases services@.len() - i,
    {
        if has_cidr(&services[i], a) {
            let r = valid_urls(&services[i].urls);
            assert(views(r@) == parsed_urls(services@[i as int].urls@));
            return Ok(r);
        }
        i = i + 1;
    }
    let r: Vec<String> = Vec::new();
    assert(views(r@) =~= Seq::<Seq<char>>::empty());
    Ok(r)
}

/// The base URLs of the servers for an AS number query (with or without an
/// `AS` prefix): those of the first service, in document order, with a pattern
/// that holds the number. A malformed number is an invalid-query error.
pub fn match_asn(registry: &BootstrapRegistry, asn_str: &str) -> (r: Result<Vec<String>, RdapError>)
    ensures
        r is Err <==> query_asn(asn_str@) is None,
        r matches Err(e) ==> (e matches RdapError::InvalidQuery(m) && m@ == "Invalid AS number: "@
            + without_as_prefix(asn_str@)),
        r matches Ok(v) ==> asn_match_result(registry.services@, query_asn(asn_str@)->0, views(v@)),
{
    let digits = strip_as_prefix(asn_str);
    let asn = match parse_u32(&digits) {
        Some(v) => v,
        None => {
            let shown = string_of(digits.as_slice());
            return Err(
                RdapError::InvalidQuery(String::from_str("Invalid AS number: ").concat(shown.as_str())),
            );
        },
    };
    let services = &registry.services;
    let mut i: usize = 0;
    while i < services.len()
        invariant
            services@ == registry.services@,
            query_asn(asn_str@) == Some(asn),
            i <= services@.len(),
            forall|i2: int| 0 <= i2 < i ==> !service_has_asn(#[trigger] services@[i2], asn),
        decreases services@.len() - i,
    {
        if has_asn(&services[i], asn) {
            let r = valid_urls(&services[i].urls);
            assert(views(r@) == parsed_urls(services@[i as int].urls@));
            return Ok(r);
        }
        i = i + 1;
    }
    let r: Vec<String> = Vec::new();
    assert(views(r@) =~= Seq::<Seq<char>>::empty());
    Ok(r)
}

} // verus!

verus! {

/// Where the bootstrap registries are published.
pub const IANA_BOOTSTRAP_URL: &'static str = "https://data.iana.org/rdap/";

/// Finds the authoritative servers of a query from the published bootstrap registries.
#[derive(Debug, Clone)]
pub struct BootstrapClient {
    pub base_url: String,
}

impl RegistryKind {
    /// The registry's file name under the bootstrap base URL.
    pub fn file_name(&self) -> (r: &'static str)
        ensures
            r@ == registry_file_name(*self),
    {
        match self {
            RegistryKind::Dns => "dns.json",
            RegistryKind::Ipv4 => "ipv4.json",
            RegistryKind::Ipv6 => "ipv6.json",
            RegistryKind::Asn => "asn.json",
        }
    }
}

impl BootstrapClient {
    /// A client for the registries published by IANA.
    pub fn new() -> (r: Self)
        ensures
            r.base_url@ == IANA_BOOTSTRAP_URL@,
    {
        BootstrapClient { base_url: String::from_str(IANA_BOOTSTRAP_URL) }
    }

    /// The registry that serves the request. A malformed IP address or AS
    /// number is an invalid-query error, found before any registry is
    /// fetched; entity and the other kinds need an explicit server and give
    /// a bootstrap error that says so.
    pub fn registry_kind(&self, request: &RdapRequest) -> (r: Result<RegistryKind, RdapError>)
        ensures
            malformed_query_message(request.query_type, request.query@) matches Some(m) ==> (
            r matches Err(RdapError::InvalidQuery(m2)) && m2@ == m),
            malformed_query_message(request.query_type, request.query@) is None ==> (match registry_for(
                request.query_type,
                request.query@,
            ) {
                Some(k) => r == Ok::<RegistryKind, RdapError>(k),
                None => r matches Err(RdapError::Bootstrap(m)) && m@ == explicit_server_message(
                    request.query_type,
                ),
            }),
    {
        let q = request.query.as_str();
        match request.query_type {
            QueryType::Domain => Ok(RegistryKind::Dns),
            QueryType::Ip => {
                if read_query_address(q).is_none() {
                    return Err(
                        RdapError::InvalidQuery(String::from_str("Invalid IP address: ").concat(q)),
                    );
                }
                let cs = chars_of(q);
                match find_char(&cs, ':') {
                    Some(_) => Ok(RegistryKind::Ipv6),
                    None => Ok(RegistryKind::Ipv4),
                }
            },
            QueryType::Autnum => {
                let digits = strip_as_prefix(q);
                if parse_u32(&digits).is_none() {
                    let shown = string_of(digits.as_slice());
                    return Err(
                        RdapError::InvalidQuery(
                            String::from_str("Invalid AS number: ").concat(shown.as_str()),
                        ),
                    );
                }
                Ok(RegistryKind::Asn)
            },
            QueryType::Entity => Err(
                RdapError::Bootstrap(
                    String::from_str("Entity queries require explicit server (-s/--server)"),
                ),
            ),
            _ => Err(
                RdapError::Bootstrap(
                    String::from_str("This query type requires explicit server (-s/--server)"),
                ),
            ),
        }
    }

    /// The URL of a registry document.
    pub fn registry_url(&self, kind: RegistryKind) -> (r: Result<String, RdapError>)
        ensures
            r matches Ok(u) ==> joined_url(self.base_url@, registry_file_name(kind)) == Some(u@),
            r is Err ==> joined_url(self.base_url@, registry_file_name(kind)) is None,
    {
        match join_url(self.base_url.as_str(), kind.file_name()) {
            Ok(u) => Ok(u),
            Err(m) => Err(RdapError::InvalidUrl(m)),
        }
    }

    /// The candidate servers that a fetched registry gives for the request.
    pub fn match_registry(&self, registry: &BootstrapRegistry, request: &RdapRequest) -> (r: Result<
        Vec<String>,
        RdapError,
    >)
        ensures
            request.query_type == QueryType::Domain ==> (r matches Ok(v) && domain_match_result(
                registry.services@,
                normalized_domain(request.query@),
                views(v@),
            )),
            request.query_type == QueryType::Ip ==> (r is Err <==> query_address(request.query@) is None)
                && (r matches Ok(v) ==> ip_match_result(
                registry.services@,
                query_address(request.query@)->0,
                views(v@),
            )),
            request.query_type == QueryType::Autnum ==> (r is Err <==> query_asn(request.query@) is None)
                && (r matches Ok(v) ==> asn_match_result(
                registry.services@,
                query_asn(request.query@)->0,
                views(v@),
            )),
            registry_for(request.query_type, request.query@) is None ==> (r matches Err(e) && e is Bootstrap),
    {
        match request.query_type {
            QueryType::Domain => Ok(match_domain(registry, request.query.as_str())),
            QueryType::Ip => match_ip(registry, request.query.as_str()),
            QueryType::Autnum => match_asn(registry, request.query.as_str()),
            _ => Err(RdapError::Bootstrap(String::from_str("Unsupported query type"))),
        }
    }
}

/// The error for a registry fetch that did not answer with success.
pub fn registry_fetch_error(status: u16) -> (r: RdapError)
    ensures
        r matches RdapError::Bootstrap(m) && m@ == "Failed to fetch registry: HTTP "@ + decimal_of(
            status as nat,
        ),
{
    RdapError::Bootstrap(String::from_str("Failed to fetch registry: HTTP ").concat(
        string_of(decimal_chars(status as u64).as_slice()).as_str(),
    ))
}

} // verus!

verus! {

proof fn lemma_decimal_reads_back(n: nat)
    ensures
        decimal_of(n).len() > 0,
        all_digits(decimal_of(n)),
        digits_value(decimal_of(n)) == n,
    decreases n,
{
    let d = decimal_of(n);
    assert(digit_value(digit_char(n % 10)) == n % 10);
    if n < 10 {
        assert(d.drop_last() =~= Seq::<char>::empty());
        assert(is_digit(d[0]));
        assert(d.last() == digit_char(n));
        assert(digits_value(d) == digits_value(d.drop_last()) * 10 + digit_value(d.last()));
        assert(digits_value(Seq::<char>::empty()) == 0);
    } else {
        lemma_decimal_reads_back(n / 10);
        let p = decimal_of(n / 10);
        assert(d.drop_last() =~= p);
        assert(d.last() == digit_char(n % 10));
        assert(digits_value(d) == digits_value(p) * 10 + digit_value(d.last()));
        assert((n / 10) * 10 + n % 10 == n);
        assert forall|i: int| 0 <= i < d.len() implies is_digit(#[trigger] d[i]) by {
            if i < p.len() {
                assert(d[i] == p[i]);
            }
        }
    }
}

proof fn lemma_decimal_parses(n: u32)
    ensures
        parsed_u32(decimal_of(n as nat)) == Some(n),
        forall|i: int| 0 <= i < decimal_of(n as nat).len() ==> #[trigger] decimal_of(n as nat)[i] != '-',
{
    lemma_decimal_reads_back(n as nat);
    let d = decimal_of(n as nat);
    assert(is_digit(d[0]));
    assert(unsigned_body(d) == d);
    assert forall|i: int| 0 <= i < d.len() implies #[trigger] d[i] != '-' by {
        assert(is_digit(d[i]));
    }
}

/// An AS number falls in the range pattern `lo-hi` exactly when
/// `lo <= n <= hi`, both ends included; it matches the single-number pattern
/// `m` exactly when it equals `m`.
pub proof fn asn_range_law(n: u32, lo: u32, hi: u32, m: u32)
    ensures
        asn_range_matches(n, decimal_of(lo as nat) + "-"@ + decimal_of(hi as nat)) <==> (lo <= n
            && n <= hi),
        asn_range_matches(n, decimal_of(m as nat)) <==> n == m,
{
    reveal_strlit("-");
    lemma_decimal_parses(lo);
    lemma_decimal_parses(hi);
    lemma_decimal_parses(m);
    let a = decimal_of(lo as nat);
    let b = decimal_of(hi as nat);
    let p = a + "-"@ + b;
    let len_a = a.len() as int;
    assert(p[len_a] == '-');
    assert(has_char(p, '-'));
    assert forall|j: int| 0 <= j < len_a implies p[j] != '-' by {
        assert(p[j] == a[j]);
    }
    assert(is_first_index(p, '-', len_a));
    let i = choose|i: int| is_first_index(p, '-', i);
    assert(i == len_a) by {
        if i < len_a {
            assert(p[i] != '-');
        } else if i > len_a {
            assert(p[len_a] != '-');
        }
    }
    assert(p.subrange(0, i) =~= a);
    assert(p.subrange(i + 1, p.len() as int) =~= b);
    let c = decimal_of(m as nat);
    assert(!has_char(c, '-')) by {
        if has_char(c, '-') {
            let j = choose|j: int| 0 <= j < c.len() && c[j] == '-';
            assert(c[j] != '-');
        }
    }
}

} // verus!
