//! Query kinds, their detection from a free-form string, and request paths.

use vstd::prelude::*;
use vstd::string::StringExecFns;
use vstd::utf8::encode_utf8;
use crate::error::RdapError;
use crate::urls::{join_url, joined_url};
use crate::text::{all_digits, chars_of, is_digit, string_of};

verus! {

/// The kinds of query the protocol knows.
#[derive(Debug, Clone, Copy, PartialEq, Eq, Structural)]
pub enum QueryType {
    /// Domain name query
    Domain,
    /// IP address query
    Ip,
    /// Autonomous System Number query
    Autnum,
    /// Entity query
    Entity,
    /// Nameserver query
    Nameserver,
    /// Help query
    Help,
    /// Domain search
    DomainSearch,
    /// Domain search by nameserver
    DomainSearchByNameserver,
    /// Domain search by nameserver IP
    DomainSearchByNameserverIp,
    /// Nameserver search
    NameserverSearch,
    /// Nameserver search by IP
    NameserverSearchByIp,
    /// Entity search
    EntitySearch,
    /// Entity search by handle
    EntitySearchByHandle,
}

/// The first two characters spell `AS` in either case.
pub open spec fn has_as_prefix(q: Seq<char>) -> bool {
    q.len() >= 2 && (q[0] == 'a' || q[0] == 'A') && (q[1] == 's' || q[1] == 'S')
}

/// The query without an optional leading `AS`, in either case.
pub open spec fn without_as_prefix(q: Seq<char>) -> Seq<char> {
    if has_as_prefix(q) {
        q.subrange(2, q.len() as int)
    } else {
        q
    }
}

pub open spec fn all_digits_or_dots(q: Seq<char>) -> bool {
    forall|i: int| 0 <= i < q.len() ==> (is_digit(#[trigger] q[i]) || q[i] == '.')
}

pub open spec fn has_colon(q: Seq<char>) -> bool {
    exists|i: int| 0 <= i < q.len() && q[i] == ':'
}

/// The kind of query a free-form string is taken for.
pub open spec fn detected_type(q: Seq<char>) -> QueryType {
    if has_as_prefix(q) && all_digits(q.subrange(2, q.len() as int)) {
        QueryType::Autnum
    } else if all_digits(q) {
        QueryType::Autnum
    } else if has_colon(q) || all_digits_or_dots(q) {
        QueryType::Ip
    } else {
        QueryType::Domain
    }
}

/// A byte that percent-encoding leaves as it is.
pub open spec fn is_unreserved_byte(b: u8) -> bool {
    (0x30 <= b <= 0x39) || (0x41 <= b <= 0x5a) || (0x61 <= b <= 0x7a) || b == 0x2d || b == 0x2e
        || b == 0x5f || b == 0x7e
}

/// The upper-case hexadecimal digit for `d < 16`.
pub open spec fn hex_upper(d: u8) -> char {
    if d < 10 {
        ((0x30 + d) as u8) as char
    } else {
        ((0x41 + d - 10) as u8) as char
    }
}

/// Each byte as itself when unreserved, else as `%XX` in upper-case hex.
pub open spec fn percent_encode_bytes(bs: Seq<u8>) -> Seq<char>
    decreases bs.len(),
{
    if bs.len() == 0 {
        Seq::empty()
    } else {
        let b = bs.last();
        percent_encode_bytes(bs.drop_last()) + if is_unreserved_byte(b) {
            seq![b as char]
        } else {
            seq!['%', hex_upper(b / 16), hex_upper(b % 16)]
        }
    }
}

/// The query value percent-encoded over its UTF-8 bytes.
pub open spec fn percent_encoded(q: Seq<char>) -> Seq<char> {
    percent_encode_bytes(encode_utf8(q))
}

/// The path, relative to a server's base URL, that asks for `q` as a query of kind `t`.
pub open spec fn request_path(t: QueryType, q: Seq<char>) -> Seq<char> {
    match t {
        QueryType::Domain => "domain/"@ + percent_encoded(q),
        QueryType::Ip => "ip/"@ + q,
        QueryType::Autnum => "autnum/"@ + without_as_prefix(q),
        QueryType::Entity => "entity/"@ + percent_encoded(q),
        QueryType::Nameserver => "nameserver/"@ + percent_encoded(q),
        QueryType::Help => "help"@,
        QueryType::DomainSearch => "domains?name="@ + percent_encoded(q),
        QueryType::DomainSearchByNameserver => "domains?nsLdhName="@ + percent_encoded(q),
        QueryType::DomainSearchByNameserverIp => "domains?nsIp="@ + q,
        QueryType::NameserverSearch => "nameservers?name="@ + percent_encoded(q),
        QueryType::NameserverSearchByIp => "nameservers?ip="@ + q,
        QueryType::EntitySearch => "entities?fn="@ + percent_encoded(q),
        QueryType::EntitySearchByHandle => "entities?handle="@ + percent_encoded(q),
    }
}

/// Relies on `urlencoding::encode`: every UTF-8 byte but ASCII alphanumerics and
/// `-`, `.`, `_`, `~` becomes `%` and two upper-case hex digits.
#[verifier::external_body]
fn encode_component(s: &str) -> (r: String)
    ensures
        r@ == percent_encoded(s@),
{
    urlencoding::encode(s).into_owned()
}

impl QueryType {
    /// The query kind's name, as written on a command line.
    pub fn name(&self) -> (r: &'static str)
        ensures
            r@ == query_type_name(*self),
    {
        match self {
            QueryType::Domain => "domain",
            QueryType::Ip => "ip",
            QueryType::Autnum => "autnum",
            QueryType::Entity => "entity",
            QueryType::Nameserver => "nameserver",
            QueryType::Help => "help",
            QueryType::DomainSearch => "domain-search",
            QueryType::DomainSearchByNameserver => "domain-search-by-nameserver",
            QueryType::DomainSearchByNameserverIp => "domain-search-by-nameserver-ip",
            QueryType::NameserverSearch => "nameserver-search",
            QueryType::NameserverSearchByIp => "nameserver-search-by-ip",
            QueryType::EntitySearch => "entity-search",
            QueryType::EntitySearchByHandle => "entity-search-by-handle",
        }
    }
}

pub open spec fn query_type_name(t: QueryType) -> Seq<char> {
    match t {
        QueryType::Domain => "domain"@,
        QueryType::Ip => "ip"@,
        QueryType::Autnum => "autnum"@,
        QueryType::Entity => "entity"@,
        QueryType::Nameserver => "nameserver"@,
        QueryType::Help => "help"@,
        QueryType::DomainSearch => "domain-search"@,
        QueryType::DomainSearchByNameserver => "domain-search-by-nameserver"@,
        QueryType::DomainSearchByNameserverIp => "domain-search-by-nameserver-ip"@,
        QueryType::NameserverSearch => "nameserver-search"@,
        QueryType::NameserverSearchByIp => "nameserver-search-by-ip"@,
        QueryType::EntitySearch => "entity-search"@,
        QueryType::EntitySearchByHandle => "entity-search-by-handle"@,
    }
}

/// Whether the characters of `cs` from `from` on satisfy the digit test.
fn digits_from(cs: &Vec<char>, from: usize) -> (r: bool)
    requires
        from <= cs@.len(),
    ensures
        r == all_digits(cs@.subrange(from as int, cs@.len() as int)),
{
    let mut i: usize = from;
    while i < cs.len()
        invariant
            from <= i <= cs@.len(),
            forall|j: int| from <= j < i ==> is_digit(#[trigger] cs@[j]),
        decreases cs@.len() - i,
    {
        if !('0' <= cs[i] && cs[i] <= '9') {
            assert(cs@.subrange(from as int, cs@.len() as int)[i - from] == cs@[i as int]);
            return false;
        }
        i = i + 1;
    }
    assert forall|j: int| 0 <= j < cs@.len() - from implies is_digit(
        #[trigger] cs@.subrange(from as int, cs@.len() as int)[j],
    ) by {
        assert(cs@.subrange(from as int, cs@.len() as int)[j] == cs@[from + j]);
    }
    true
}

/// Whether `cs` has a `:`, and whether it is made of digits and dots only.
fn colon_and_dotted(cs: &Vec<char>) -> (r: (bool, bool))
    ensures
        r.0 == has_colon(cs@),
        r.1 == all_digits_or_dots(cs@),
{
    let mut colon = false;
    let mut dotted = true;
    let mut i: usize = 0;
    while i < cs.len()
        invariant
            i <= cs@.len(),
            colon == (exists|j: int| 0 <= j < i && cs@[j] == ':'),
            dotted == (forall|j: int| 0 <= j < i ==> (is_digit(#[trigger] cs@[j]) || cs@[j] == '.')),
        decreases cs@.len() - i,
    {
        let c = cs[i];
        if c == ':' {
            colon = true;
        }
        if !(('0' <= c && c <= '9') || c == '.') {
            dotted = false;
        }
        i = i + 1;
    }
    (colon, dotted)
}

/// The characters of `q` without an optional leading `AS`, in either case.
pub fn strip_as_prefix(q: &str) -> (r: Vec<char>)
    ensures
        r@ == without_as_prefix(q@),
{
    let cs = chars_of(q);
    if cs.len() >= 2 && (cs[0] == 'a' || cs[0] == 'A') && (cs[1] == 's' || cs[1] == 'S') {
        let mut rest: Vec<char> = Vec::new();
        let mut i: usize = 2;
        while i < cs.len()
            invariant
                2 <= i <= cs@.len(),
                rest@ == cs@.subrange(2, i as int),
            decreases cs@.len() - i,
        {
            rest.push(cs[i]);
            i = i + 1;
        }
        assert(rest@ =~= cs@.subrange(2, cs@.len() as int));
        rest
    } else {
        cs
    }
}

/// A query: its kind, the string given, and the server to ask if one was named.
#[derive(Debug, Clone)]
pub struct RdapRequest {
    pub query_type: QueryType,
    pub query: String,
    /// An explicit server's base URL; bootstrap resolution is skipped when it is set.
    pub server: Option<String>,
}

impl RdapRequest {
    /// A request of the given kind with no explicit server.
    pub fn new(query_type: QueryType, query: &str) -> (r: Self)
        ensures
            r.query_type == query_type,
            r.query@ == query@,
            r.server is None,
    {
        RdapRequest { query_type, query: String::from_str(query), server: None }
    }

    /// The same request, sent to `server` alone.
    pub fn with_server(self, server: String) -> (r: Self)
        ensures
            r.query_type == self.query_type,
            r.query@ == self.query@,
            r.server == Some(server),
    {
        RdapRequest { server: Some(server), ..self }
    }

    /// The relative path that asks for this request's object.
    pub fn path(&self) -> (r: String)
        ensures
            r@ == request_path(self.query_type, self.query@),
    {
        let q = self.query.as_str();
        match self.query_type {
            QueryType::Domain => String::from_str("domain/").concat(encode_component(q).as_str()),
            QueryType::Ip => String::from_str("ip/").concat(q),
            QueryType::Autnum => {
                let digits = strip_as_prefix(q);
                String::from_str("autnum/").concat(string_of(digits.as_slice()).as_str())
            },
            QueryType::Entity => String::from_str("entity/").concat(encode_component(q).as_str()),
            QueryType::Nameserver => String::from_str("nameserver/").concat(
                encode_component(q).as_str(),
            ),
            QueryType::Help => String::from_str("help"),
            QueryType::DomainSearch => String::from_str("domains?name=").concat(
                encode_component(q).as_str(),
            ),
            QueryType::DomainSearchByNameserver => String::from_str("domains?nsLdhName=").concat(
                encode_component(q).as_str(),
            ),
            QueryType::DomainSearchByNameserverIp => String::from_str("domains?nsIp=").concat(q),
            QueryType::NameserverSearch => String::from_str("nameservers?name=").concat(
                encode_component(q).as_str(),
            ),
            QueryType::NameserverSearchByIp => String::from_str("nameservers?ip=").concat(q),
            QueryType::EntitySearch => String::from_str("entities?fn=").concat(
                encode_component(q).as_str(),
            ),
            QueryType::EntitySearchByHandle => String::from_str("entities?handle=").concat(
                encode_component(q).as_str(),
            ),
        }
    }

    /// The full URL of this request against the server at `base_url`.
    pub fn build_url(&self, base_url: &str) -> (r: Result<String, RdapError>)
        ensures
            r matches Ok(u) ==> joined_url(base_url@, request_path(self.query_type, self.query@))
                == Some(u@),
            r is Err ==> joined_url(base_url@, request_path(self.query_type, self.query@)) is None,
            r matches Err(e) ==> e is InvalidUrl,
    {
        let path = self.path();
        match join_url(base_url, path.as_str()) {
            Ok(u) => Ok(u),
            Err(m) => Err(RdapError::InvalidUrl(m)),
        }
    }

    /// The kind of query that a free-form string is taken for: an AS number
    /// (with or without an `AS` prefix in either case), an IP address, or else a domain.
    pub fn detect_type(query: &str) -> (r: Result<QueryType, RdapError>)
        ensures
            r == Ok::<QueryType, RdapError>(detected_type(query@)),
    {
        let cs = chars_of(query);
        if cs.len() >= 2 && (cs[0] == 'a' || cs[0] == 'A') && (cs[1] == 's' || cs[1] == 'S') {
            if digits_from(&cs, 2) {
                return Ok(QueryType::Autnum);
            }
        }
        if digits_from(&cs, 0) {
            assert(cs@.subrange(0, cs@.len() as int) =~= cs@);
            return Ok(QueryType::Autnum);
        }
        assert(cs@.subrange(0, cs@.len() as int) =~= cs@);
        let (colon, dotted) = colon_and_dotted(&cs);
        if colon || dotted {
            return Ok(QueryType::Ip);
        }
        Ok(QueryType::Domain)
    }
}

} // verus!
