//! The query executor: which servers to ask, how each answer is classified,
//! when to go on to the next server, and the IPv6 and referral policies.
//!
//! The executor is a set of small state machines. The caller performs each
//! request the machine asks for and hands back what came of it.

use vstd::prelude::*;
use vstd::string::StringExecFns;
use crate::bootstrap::{
    explicit_server_message, malformed_query_message, normalized_domain, registry_for,
    BootstrapClient, RegistryKind,
};
use crate::config::{lookup_tld_override, override_for, TldList, TldOverrides, IANA_RDAP_URL};
use crate::error::RdapError;
use crate::ip::{has_char, ip_literal, read_ip_literal, IpAddress};
use crate::models::{Contact, ErrorResponse, Link};
use crate::request::{QueryType, RdapRequest};
use crate::text::{
    chars_of, contains_chars, contains_seq, decimal_chars, decimal_of, find_char, opt_view,
    string_of, lower_of,
};
use crate::urls::{host_of, url_host, views};

verus! {

/// How an HTTP status is treated.
#[derive(Debug, Clone, Copy, PartialEq, Eq, Structural)]
pub enum StatusClass {
    /// 2xx: the body is the answer.
    Success,
    /// 404: the object does not exist, whichever server is asked.
    NotFound,
    /// Any other status: this server failed; another may answer.
    Failure,
}

pub open spec fn status_class(code: u16) -> StatusClass {
    if 200 <= code <= 299 {
        StatusClass::Success
    } else if code == 404 {
        StatusClass::NotFound
    } else {
        StatusClass::Failure
    }
}

/// How an HTTP status is treated.
pub fn classify_status(code: u16) -> (r: StatusClass)
    ensures
        r == status_class(code),
{
    if 200 <= code && code <= 299 {
        StatusClass::Success
    } else if code == 404 {
        StatusClass::NotFound
    } else {
        StatusClass::Failure
    }
}

/// The error for a failed (non-2xx, non-404) answer: the server's own error
/// document when its body decodes as one, else a plain HTTP error.
pub fn server_error(status: u16, body: Option<ErrorResponse>) -> (r: RdapError)
    ensures
        body matches Some(b) ==> (r matches RdapError::ServerError { code, title, description }
            && code == (match b.error_code {
            Some(c) => c,
            None => status,
        }) && title@ == (match b.title {
            Some(t) => t@,
            None => "Unknown error"@,
        }) && description == b.description),
        body is None ==> (r matches RdapError::Other(m) && m@ == "HTTP error: "@ + decimal_of(
            status as nat,
        )),
{
    match body {
        Some(b) => {
            let code = match b.error_code {
                Some(c) => c,
                None => status,
            };
            let title = match b.title {
                Some(t) => t,
                None => String::from_str("Unknown error"),
            };
            RdapError::ServerError { code, title, description: b.description }
        },
        None => {
            let digits = decimal_chars(status as u64);
            RdapError::Other(String::from_str("HTTP error: ").concat(string_of(digits.as_slice()).as_str()))
        },
    }
}

/// What came of asking one server.
#[derive(Debug, Clone)]
pub enum Attempt {
    /// It answered with a document.
    Success,
    /// It answered 404.
    NotFound,
    /// It failed; `status` is the HTTP status when it answered at all.
    Failed { status: Option<u16>, error: RdapError },
}

/// What the caller does next while walking the candidate servers.
#[derive(Debug, Clone)]
pub enum WalkStep {
    /// Ask the candidate at this index.
    Try(usize),
    /// The candidate at this index answered; the walk is over.
    Succeeded(usize),
    /// The query failed; `status` is the HTTP status behind the error, if any.
    Fail { error: RdapError, status: Option<u16> },
}

/// The walk over an ordered list of candidate servers: each is tried in turn
/// until one answers; a 404 ends the walk at once.
#[derive(Debug, Clone, Copy, PartialEq, Eq, Structural)]
pub struct ServerWalk {
    /// How many candidates there are.
    pub count: usize,
    /// The candidate being asked.
    pub current: usize,
}

impl ServerWalk {
    pub open spec fn wf(&self) -> bool {
        self.current < self.count
    }

    /// Starts a walk over `count` candidates: the first is asked, or, with
    /// none, the query fails with no working servers.
    pub fn start(count: usize) -> (r: (ServerWalk, WalkStep))
        ensures
            count == 0 ==> (r.1 matches WalkStep::Fail { error, status } && error is NoWorkingServers
                && status is None),
            count > 0 ==> r.0.wf() && r.0.count == count && r.0.current == 0 && (r.1 matches WalkStep::Try(
                i,
            ) && i == 0),
    {
        let walk = ServerWalk { count, current: 0 };
        if count == 0 {
            (walk, WalkStep::Fail { error: RdapError::NoWorkingServers, status: None })
        } else {
            (walk, WalkStep::Try(0))
        }
    }

    /// Takes what came of asking the current candidate. A success ends the
    /// walk there; a 404 ends the query as not found, however many candidates
    /// are left; a failure moves on to the next candidate, or, after the
    /// last, fails the query with that failure's error.
    pub fn on_attempt(&mut self, attempt: Attempt) -> (r: WalkStep)
        requires
            old(self).wf(),
        ensures
            final(self).count == old(self).count,
            attempt is Success ==> (r matches WalkStep::Succeeded(i) && i == old(self).current),
            attempt is NotFound ==> (r matches WalkStep::Fail { error, status } && error is NotFound
                && status == Some(404u16)),
            attempt matches Attempt::Failed { status, error } ==> if old(self).current + 1 < old(
                self,
            ).count {
                (r matches WalkStep::Try(i) && i == old(self).current + 1) && *final(self) == (ServerWalk {
                    count: old(self).count,
                    current: (old(self).current + 1) as usize,
                })
            } else {
                r == WalkStep::Fail { error, status }
            },
            r is Try ==> final(self).wf(),
    {
        match attempt {
            Attempt::Success => WalkStep::Succeeded(self.current),
            Attempt::NotFound => WalkStep::Fail { error: RdapError::NotFound, status: Some(404) },
            Attempt::Failed { status, error } => {
                if self.current + 1 < self.count {
                    self.current = self.current + 1;
                    WalkStep::Try(self.current)
                } else {
                    WalkStep::Fail { error, status }
                }
            },
        }
    }
}

} // verus!

verus! {

// ---- IPv6 host-query fallback ----

/// The lower-case hexadecimal digit for `d < 16`.
pub open spec fn hex_lower(d: nat) -> char {
    if d < 10 {
        ((d + 48) as u8) as char
    } else {
        ((d + 87) as u8) as char
    }
}

/// `n` in lower-case hexadecimal, without leading zeros.
pub open spec fn hex_of(n: nat) -> Seq<char>
    decreases n,
{
    if n < 16 {
        seq![hex_lower(n)]
    } else {
        hex_of(n / 16).push(hex_lower(n % 16))
    }
}

/// The 16-bit group `i` (0 is the first) of an IPv6 address.
pub open spec fn group_of(a: u128, i: nat) -> nat {
    ((a >> ((112 - 16 * i) as u128)) & 0xffffu128) as nat
}

/// The first `k` groups of `a`, in hexadecimal, joined by `:`.
pub open spec fn groups_text(a: u128, k: nat) -> Seq<char>
    decreases k,
{
    if k <= 1 {
        hex_of(group_of(a, 0))
    } else {
        groups_text(a, (k - 1) as nat) + ":"@ + hex_of(group_of(a, (k - 1) as nat))
    }
}

/// The network of `a` at prefix length `p`, written `x:x:x:x:x:x:x:x/p`.
pub open spec fn ipv6_block_text(a: u128, p: nat) -> Seq<char> {
    groups_text(crate::ip::network_of(crate::ip::IpAddress::V6(a), p)->V6_0, 8) + "/"@ + decimal_of(p)
}

/// The prefix lengths tried, in order, at each stage of the fallback.
pub open spec fn ladder_prefix(stage: nat) -> nat {
    if stage == 0 {
        64
    } else if stage == 1 {
        48
    } else {
        32
    }
}

/// The stage after a failure at `stage`, or none when the fallback is spent.
pub open spec fn ladder_next(stage: nat) -> Option<nat> {
    if stage < 2 {
        Some(stage + 1)
    } else {
        None
    }
}

/// The query that stage `stage` of the fallback sends for address `a`.
pub open spec fn ladder_query(a: u128, stage: nat) -> Seq<char> {
    ipv6_block_text(a, ladder_prefix(stage))
}

/// The retries of an IPv6 host query rejected with HTTP 400: the same
/// servers are asked for the enclosing /64, then /48, then /32, until one
/// answers. When all three fail, the error of the host query stands.
#[derive(Debug, Clone)]
pub struct Ipv6Ladder {
    pub address: u128,
    pub stage: usize,
    pub host_error: RdapError,
}

/// `n < 16` as its lower-case hexadecimal digit.
fn hex_digit(n: u128) -> (r: char)
    requires
        n < 16,
    ensures
        r == hex_lower(n as nat),
{
    if n < 10 {
        ((n as u8) + 48) as char
    } else {
        ((n as u8) + 87) as char
    }
}

/// `n` in lower-case hexadecimal, without leading zeros.
fn hex_chars(n: u128) -> (r: Vec<char>)
    ensures
        r@ == hex_of(n as nat),
    decreases n,
{
    if n < 16 {
        let mut v: Vec<char> = Vec::new();
        v.push(hex_digit(n));
        v
    } else {
        let mut v = hex_chars(n / 16);
        v.push(hex_digit(n % 16));
        v
    }
}

/// The network of `a` at prefix length `p`, written `x:x:x:x:x:x:x:x/p`.
pub fn ipv6_block(a: u128, p: u32) -> (r: String)
    ensures
        r@ == ipv6_block_text(a, p as nat),
{
    let net = match crate::ip::network_address(crate::ip::IpAddress::V6(a), p) {
        crate::ip::IpAddress::V6(x) => x,
        crate::ip::IpAddress::V4(_) => 0,
    };
    let mut text: Vec<char> = Vec::new();
    let mut i: usize = 0;
    while i < 8
        invariant
            i <= 8,
            net == crate::ip::network_of(crate::ip::IpAddress::V6(a), p as nat)->V6_0,
            i > 0 ==> text@ == groups_text(net, i as nat),
            i == 0 ==> text@.len() == 0,
        decreases 8 - i,
    {
        if i > 0 {
            text.push(':');
        }
        let shift: u128 = (112 - 16 * i) as u128;
        let group = (net >> shift) & 0xffff;
        let digits = hex_chars(group);
        let ghost before = text@;
        let mut j: usize = 0;
        while j < digits.len()
            invariant
                j <= digits@.len(),
                text@ == before + digits@.subrange(0, j as int),
            decreases digits@.len() - j,
        {
            text.push(digits[j]);
            assert(text@ =~= before + digits@.subrange(0, j + 1));
            j = j + 1;
        }
        assert(digits@.subrange(0, j as int) =~= digits@);
        proof {
            if i == 0 {
                assert(text@ =~= hex_of(group_of(net, 0)));
            } else {
                assert(before == groups_text(net, i as nat) + ":"@) by {
                    reveal_strlit(":");
                    assert(before =~= groups_text(net, i as nat) + ":"@);
                }
                assert(text@ =~= groups_text(net, (i + 1) as nat));
            }
        }
        i = i + 1;
    }
    let mut out: Vec<char> = text;
    out.push('/');
    let digits = decimal_chars(p as u64);
    let ghost before = out@;
    let mut j: usize = 0;
    while j < digits.len()
        invariant
            j <= digits@.len(),
            out@ == before + digits@.subrange(0, j as int),
        decreases digits@.len() - j,
    {
        out.push(digits[j]);
        assert(out@ =~= before + digits@.subrange(0, j + 1));
        j = j + 1;
    }
    proof {
        reveal_strlit("/");
        assert(digits@.subrange(0, j as int) =~= digits@);
        assert(out@ =~= ipv6_block_text(a, p as nat));
    }
    string_of(out.as_slice())
}

impl Ipv6Ladder {
    pub open spec fn wf(&self) -> bool {
        self.stage <= 2
    }

    /// Starts the fallback for the IPv6 address `address`, whose host query
    /// failed with `host_error`; the first retry asks for the enclosing /64.
    pub fn start(address: u128, host_error: RdapError) -> (r: (Ipv6Ladder, String))
        ensures
            r.0.wf(),
            r.0.address == address,
            r.0.stage == 0,
            r.0.host_error == host_error,
            r.1@ == ladder_query(address, 0),
            ladder_prefix(0) == 64,
    {
        let q = ipv6_block(address, 64);
        (Ipv6Ladder { address, stage: 0, host_error }, q)
    }

    /// The retry at the current stage failed: the next stage's query, or,
    /// after the /32 retry, the host query's error.
    pub fn on_failure(self) -> (r: Result<(Ipv6Ladder, String), RdapError>)
        requires
            self.wf(),
        ensures
            ladder_next(self.stage as nat) matches Some(s) ==> (r matches Ok(next) && next.0.wf()
                && next.0.stage == s && next.0.address == self.address && next.0.host_error
                == self.host_error && next.1@ == ladder_query(self.address, s)),
            ladder_next(self.stage as nat) is None ==> r == Err::<(Ipv6Ladder, String), RdapError>(
                self.host_error,
            ),
    {
        if self.stage < 2 {
            let stage = self.stage + 1;
            let p: u32 = if stage == 1 {
                48
            } else {
                32
            };
            let q = ipv6_block(self.address, p);
            Ok((Ipv6Ladder { address: self.address, stage, host_error: self.host_error }, q))
        } else {
            Err(self.host_error)
        }
    }
}

/// The prefix lengths that the fallback asks for, in order, from `stage`
/// on, and whether one of them succeeded, when the retry at stage `i`
/// succeeds exactly if `outcomes[i]`: each failure moves to `ladder_next`,
/// the first success ends the fallback.
pub open spec fn ladder_trace(outcomes: Seq<bool>, stage: nat) -> (Seq<nat>, bool)
    decreases 3 - stage,
{
    if stage >= 3 || stage >= outcomes.len() {
        (Seq::empty(), false)
    } else if outcomes[stage as int] {
        (seq![ladder_prefix(stage)], true)
    } else {
        match ladder_next(stage) {
            Some(n) => {
                let rest = ladder_trace(outcomes, n);
                (seq![ladder_prefix(stage)] + rest.0, rest.1)
            },
            None => (seq![ladder_prefix(stage)], false),
        }
    }
}

/// Whatever the three retries give, the fallback asks at /64, then /48,
/// then /32, stops at the first that succeeds, and asks nothing after it;
/// when all three fail it succeeds nowhere, and `on_failure` then returns the
/// host query's error.
pub proof fn ipv6_fallback_law(outcomes: Seq<bool>)
    requires
        outcomes.len() == 3,
    ensures
        outcomes[0] ==> ladder_trace(outcomes, 0) == (seq![64nat], true),
        !outcomes[0] && outcomes[1] ==> ladder_trace(outcomes, 0) == (seq![64nat, 48nat], true),
        !outcomes[0] && !outcomes[1] && outcomes[2] ==> ladder_trace(outcomes, 0) == (
        seq![64nat, 48nat, 32nat], true),
        !outcomes[0] && !outcomes[1] && !outcomes[2] ==> ladder_trace(outcomes, 0) == (
        seq![64nat, 48nat, 32nat], false),
        ladder_next(2) is None,
{
    let t3 = ladder_trace(outcomes, 3);
    assert(t3 == (Seq::<nat>::empty(), false));
    let t2 = ladder_trace(outcomes, 2);
    let t1 = ladder_trace(outcomes, 1);
    let t0 = ladder_trace(outcomes, 0);
    if !outcomes[0] && !outcomes[1] {
        assert(t1.0 =~= seq![48nat] + t2.0);
        assert(t0.0 =~= seq![64nat] + t1.0);
        if outcomes[2] {
            assert(t0.0 =~= seq![64nat, 48nat, 32nat]);
        } else {
            assert(t0.0 =~= seq![64nat, 48nat, 32nat]);
        }
    } else if !outcomes[0] {
        assert(t0.0 =~= seq![64nat, 48nat]);
    }
}

} // verus!

verus! {

/// The address of an IPv6 host query (no `/prefix`) that failed with HTTP 400,
/// which the fallback retries as enclosing networks.
pub open spec fn ladder_address(t: QueryType, q: Seq<char>, status: Option<u16>) -> Option<u128> {
    if t == QueryType::Ip && status == Some(400u16) && !has_char(q, '/') {
        match ip_literal(q) {
            Some(IpAddress::V6(a)) => Some(a),
            _ => None,
        }
    } else {
        None
    }
}

/// Whether a failed query is an IPv6 host query rejected with HTTP 400, and
/// if so its address.
pub fn ladder_applies(request: &RdapRequest, status: Option<u16>) -> (r: Option<u128>)
    ensures
        r == ladder_address(request.query_type, request.query@, status),
{
    if request.query_type != QueryType::Ip || status != Some(400u16) {
        return None;
    }
    let cs = chars_of(request.query.as_str());
    if find_char(&cs, '/').is_some() {
        return None;
    }
    assert(!has_char(cs@, '/'));
    match read_ip_literal(&cs) {
        Some(IpAddress::V6(a)) => Some(a),
        _ => None,
    }
}

// ---- referrals ----

/// A link that points at a registrar's record of the same domain: relation
/// `related`, and a type naming the protocol's media type or a target with a
/// domain-record segment.
pub open spec fn is_referral_link(l: Link) -> bool {
    (l.rel matches Some(r) && r@ == "related"@) && ((l.link_type matches Some(t) && contains_seq(
        t@,
        "application/rdap+json"@,
    )) || contains_seq(l.href@, "/domain/"@))
}

pub open spec fn has_referral(links: Seq<Link>) -> bool {
    exists|i: int| 0 <= i < links.len() && is_referral_link(#[trigger] links[i])
}

/// Link `i` is the first referral link.
pub open spec fn first_referral_at(links: Seq<Link>, i: int) -> bool {
    0 <= i < links.len() && is_referral_link(links[i]) && forall|j: int|
        0 <= j < i ==> !is_referral_link(#[trigger] links[j])
}

pub open spec fn is_registrar(c: Contact) -> bool {
    exists|i: int| 0 <= i < c.roles@.len() && (#[trigger] c.roles@[i])@ == "registrar"@
}

/// A registrar contact with a referral link.
pub open spec fn refers(c: Contact) -> bool {
    is_registrar(c) && has_referral(c.links@)
}

/// What the referral search finds: the first referral link of the record
/// itself, else the first referral link of the first registrar contact that
/// has one, else nothing.
pub open spec fn referral_found(links: Seq<Link>, contacts: Seq<Contact>, r: Option<Seq<char>>) -> bool {
    if has_referral(links) {
        exists|i: int| first_referral_at(links, i) && r == Some((#[trigger] links[i]).href@)
    } else if exists|c: int| 0 <= c < contacts.len() && refers(#[trigger] contacts[c]) {
        exists|c: int, i: int|
            #![trigger contacts[c], first_referral_at(contacts[c].links@, i)]
            0 <= c < contacts.len() && refers(contacts[c]) && (forall|c2: int|
                0 <= c2 < c ==> !refers(#[trigger] contacts[c2])) && first_referral_at(
                contacts[c].links@,
                i,
            ) && r == Some(contacts[c].links@[i].href@)
    } else {
        r is None
    }
}

fn str_is(s: &String, lit: &str) -> (r: bool)
    ensures
        r == (s@ == lit@),
{
    *s == String::from_str(lit)
}

/// Whether `l` is a referral link.
pub fn referral_link(l: &Link) -> (r: bool)
    ensures
        r == is_referral_link(*l),
{
    let related = match &l.rel {
        Some(rel) => str_is(rel, "related"),
        None => false,
    };
    if !related {
        return false;
    }
    let typed = match &l.link_type {
        Some(t) => contains_chars(&chars_of(t.as_str()), &chars_of("application/rdap+json")),
        None => false,
    };
    typed || contains_chars(&chars_of(l.href.as_str()), &chars_of("/domain/"))
}

/// The index of the first referral link, if any.
fn first_referral(links: &Vec<Link>) -> (r: Option<usize>)
    ensures
        r matches Some(i) ==> first_referral_at(links@, i as int),
        r is None ==> !has_referral(links@),
{
    let mut i: usize = 0;
    while i < links.len()
        invariant
            i <= links@.len(),
            forall|j: int| 0 <= j < i ==> !is_referral_link(#[trigger] links@[j]),
        decreases links@.len() - i,
    {
        if referral_link(&links[i]) {
            return Some(i);
        }
        i = i + 1;
    }
    None
}

fn registrar(c: &Contact) -> (r: bool)
    ensures
        r == is_registrar(*c),
{
    let mut i: usize = 0;
    while i < c.roles.len()
        invariant
            i <= c.roles@.len(),
            forall|j: int| 0 <= j < i ==> (#[trigger] c.roles@[j])@ != "registrar"@,
        decreases c.roles@.len() - i,
    {
        if str_is(&c.roles[i], "registrar") {
            return true;
        }
        i = i + 1;
    }
    false
}

/// The referral target of a domain record: the first referral link among the
/// record's own links, else among the links of its registrar contacts.
pub fn find_referral(links: &Vec<Link>, contacts: &Vec<Contact>) -> (r: Option<String>)
    ensures
        referral_found(links@, contacts@, opt_view(r)),
{
    match first_referral(links) {
        Some(i) => {
            let h = links[i].href.clone();
            assert(h@ == links@[i as int].href@);
            return Some(h);
        },
        None => {},
    }
    let mut c: usize = 0;
    while c < contacts.len()
        invariant
            !has_referral(links@),
            c <= contacts@.len(),
            forall|c2: int| 0 <= c2 < c ==> !refers(#[trigger] contacts@[c2]),
        decreases contacts@.len() - c,
    {
        if registrar(&contacts[c]) {
            match first_referral(&contacts[c].links) {
                Some(i) => {
                    let h = contacts[c].links[i].href.clone();
                    assert(h@ == contacts@[c as int].links@[i as int].href@);
                    assert(refers(contacts@[c as int]));
                    return Some(h);
                },
                None => {},
            }
        }
        c = c + 1;
    }
    None
}

/// Whether to follow a referral found in the record fetched from `queried`:
/// only when the referral's host is known and differs from the host just
/// queried, so a record never sends the query back to where it came from.
pub fn should_follow(referral: &str, queried: &str) -> (r: bool)
    ensures
        r == (host_of(referral@) is Some && host_of(referral@) != host_of(queried@)),
{
    match (url_host(referral), url_host(queried)) {
        (Some(a), Some(b)) => !(a == b),
        (Some(_), None) => true,
        (None, _) => false,
    }
}

/// The referred record, if the referral fetch gave one: a failed referral
/// never fails the query; the registry's record alone is returned.
pub fn keep_referral<T>(fetched: Result<T, RdapError>) -> (r: Option<T>)
    ensures
        fetched matches Ok(v) ==> r == Some(v),
        fetched is Err ==> r is None,
{
    match fetched {
        Ok(v) => Some(v),
        Err(_) => None,
    }
}

/// Whether to look for a referral after the primary record came back: for
/// domain queries whose answer is a domain record, unless referrals are disabled.
pub fn follows_referrals(request: &RdapRequest, enabled: bool, primary: RecordKind) -> (r: bool)
    ensures
        r == (enabled && request.query_type == QueryType::Domain && primary == RecordKind::Domain),
{
    enabled && request.query_type == QueryType::Domain && primary == RecordKind::Domain
}

} // verus!

verus! {

// ---- response classification ----

/// The record variants a response document can be.
#[derive(Debug, Clone, Copy, PartialEq, Eq, Structural)]
pub enum RecordKind {
    Domain,
    Entity,
    Nameserver,
    Autnum,
    IpNetwork,
    Error,
    DomainSearch,
    EntitySearch,
    NameserverSearch,
    Help,
}

pub open spec fn has_field(keys: Seq<String>, k: Seq<char>) -> bool {
    exists|i: int| 0 <= i < keys.len() && (#[trigger] keys[i])@ == k
}

/// The record variant of an object with top-level fields `keys` and an
/// `objectClassName` string `class_name`, by the first rule that applies:
/// an error code; a search-result container; the object class; else help.
pub open spec fn record_kind(keys: Seq<String>, class_name: Option<Seq<char>>) -> RecordKind {
    if has_field(keys, "errorCode"@) {
        RecordKind::Error
    } else if has_field(keys, "domainSearchResults"@) {
        RecordKind::DomainSearch
    } else if has_field(keys, "entitySearchResults"@) {
        RecordKind::EntitySearch
    } else if has_field(keys, "nameserverSearchResults"@) {
        RecordKind::NameserverSearch
    } else {
        match class_name {
            Some(c) => if c == "domain"@ {
                RecordKind::Domain
            } else if c == "entity"@ {
                RecordKind::Entity
            } else if c == "nameserver"@ {
                RecordKind::Nameserver
            } else if c == "autnum"@ {
                RecordKind::Autnum
            } else if c == "ip network"@ {
                RecordKind::IpNetwork
            } else {
                RecordKind::Help
            },
            None => RecordKind::Help,
        }
    }
}

fn field_present(keys: &Vec<String>, k: &str) -> (r: bool)
    ensures
        r == has_field(keys@, k@),
{
    let mut i: usize = 0;
    while i < keys.len()
        invariant
            i <= keys@.len(),
            forall|j: int| 0 <= j < i ==> (#[trigger] keys@[j])@ != k@,
        decreases keys@.len() - i,
    {
        if str_is(&keys[i], k) {
            return true;
        }
        i = i + 1;
    }
    false
}

/// The record variant of a decoded response document, from its shape alone:
/// whether it is an object, its top-level field names, and its
/// `objectClassName` when that is a string. A document that is not an object
/// is a decoding error.
pub fn classify_document(is_object: bool, keys: &Vec<String>, class_name: Option<String>) -> (r: Result<
    RecordKind,
    RdapError,
>)
    ensures
        is_object ==> r == Ok::<RecordKind, RdapError>(record_kind(keys@, opt_view(class_name))),
        !is_object ==> (r matches Err(e) && e is Json),
{
    if !is_object {
        return Err(RdapError::Json(String::from_str("Invalid RDAP response")));
    }
    if field_present(keys, "errorCode") {
        return Ok(RecordKind::Error);
    }
    if field_present(keys, "domainSearchResults") {
        return Ok(RecordKind::DomainSearch);
    }
    if field_present(keys, "entitySearchResults") {
        return Ok(RecordKind::EntitySearch);
    }
    if field_present(keys, "nameserverSearchResults") {
        return Ok(RecordKind::NameserverSearch);
    }
    match class_name {
        Some(c) => {
            if str_is(&c, "domain") {
                Ok(RecordKind::Domain)
            } else if str_is(&c, "entity") {
                Ok(RecordKind::Entity)
            } else if str_is(&c, "nameserver") {
                Ok(RecordKind::Nameserver)
            } else if str_is(&c, "autnum") {
                Ok(RecordKind::Autnum)
            } else if str_is(&c, "ip network") {
                Ok(RecordKind::IpNetwork)
            } else {
                Ok(RecordKind::Help)
            }
        },
        None => Ok(RecordKind::Help),
    }
}

// ---- choosing the servers ----

/// Where the candidate servers of a request come from.
#[derive(Debug, Clone)]
pub enum ServerPlan {
    /// These servers, in order, without a bootstrap fetch.
    Servers(Vec<String>),
    /// The servers that this bootstrap registry gives.
    Fetch(RegistryKind),
}

/// What the server plan of a request is, given the override map and TLD list.
pub open spec fn planned(
    request: RdapRequest,
    overrides: Map<Seq<char>, Seq<char>>,
    tlds: Set<Seq<char>>,
    r: Result<ServerPlan, RdapError>,
) -> bool {
    &&& request.server matches Some(s) ==> (r matches Ok(ServerPlan::Servers(v)) && views(v@) == seq![s@])
    &&& request.server is None && request.query_type == QueryType::Domain && tlds.contains(
        lower_of(request.query@),
    ) ==> (r matches Ok(ServerPlan::Servers(v)) && views(v@) == seq![IANA_RDAP_URL@])
    &&& request.server is None && request.query_type == QueryType::Domain && !tlds.contains(
        lower_of(request.query@),
    ) ==> (match override_for(overrides, normalized_domain(request.query@)) {
        Some(u) => r matches Ok(ServerPlan::Servers(v)) && views(v@) == seq![u],
        None => r matches Ok(ServerPlan::Fetch(k)) && k == RegistryKind::Dns,
    })
    &&& request.server is None && request.query_type != QueryType::Domain ==> (match malformed_query_message(
        request.query_type,
        request.query@,
    ) {
        Some(m) => r matches Err(RdapError::InvalidQuery(m2)) && m2@ == m,
        None => match registry_for(request.query_type, request.query@) {
            Some(k) => r matches Ok(ServerPlan::Fetch(k2)) && k2 == k,
            None => r matches Err(RdapError::Bootstrap(m)) && m@ == explicit_server_message(
                request.query_type,
            ),
        },
    })
}

/// How the servers of a request are found: an explicit server alone; for a
/// domain query, the IANA server when the query is itself a TLD, else the
/// override for its longest configured suffix; else the registry of its
/// family, once the address or AS number is known to be well formed (a
/// malformed one is an invalid-query error, before any fetch). Kinds with no
/// registry need an explicit server.
pub fn plan_servers(request: &RdapRequest, overrides: &TldOverrides, tlds: &TldList) -> (r: Result<
    ServerPlan,
    RdapError,
>)
    ensures
        planned(*request, overrides@, tlds@, r),
{
    match &request.server {
        Some(s) => {
            let mut v: Vec<String> = Vec::new();
            v.push(s.clone());
            assert(views(v@) =~= seq![s@]);
            return Ok(ServerPlan::Servers(v));
        },
        None => {},
    }
    if request.query_type == QueryType::Domain {
        if tlds.is_tld(request.query.as_str()) {
            let mut v: Vec<String> = Vec::new();
            v.push(String::from_str(IANA_RDAP_URL));
            assert(views(v@) =~= seq![IANA_RDAP_URL@]);
            return Ok(ServerPlan::Servers(v));
        }
        match lookup_tld_override(overrides, request.query.as_str()) {
            Some(u) => {
                let ghost uv = u@;
                let mut v: Vec<String> = Vec::new();
                v.push(u);
                assert(views(v@) =~= seq![uv]);
                return Ok(ServerPlan::Servers(v));
            },
            None => {
                return Ok(ServerPlan::Fetch(RegistryKind::Dns));
            },
        }
    }
    let client = BootstrapClient::new();
    match client.registry_kind(request) {
        Ok(k) => Ok(ServerPlan::Fetch(k)),
        Err(e) => Err(e),
    }
}

} // verus!

verus! {

/// A client's settings: the per-request timeout, whether referrals are
/// followed, the bootstrap source, and the override map and TLD list consulted
/// before any bootstrap fetch.
#[derive(Debug, Clone)]
pub struct RdapClient {
    pub timeout_secs: u64,
    pub follow_referrals: bool,
    pub bootstrap: BootstrapClient,
    pub overrides: TldOverrides,
    pub tlds: TldList,
}

impl RdapClient {
    /// A client with a 30 s timeout that follows referrals, given its override map and TLD list.
    pub fn new(overrides: TldOverrides, tlds: TldList) -> (r: Self)
        ensures
            r.timeout_secs == 30,
            r.follow_referrals,
            r.bootstrap.base_url@ == crate::bootstrap::IANA_BOOTSTRAP_URL@,
            r.overrides@ == overrides@,
            r.tlds@ == tlds@,
    {
        RdapClient {
            timeout_secs: 30,
            follow_referrals: true,
            bootstrap: BootstrapClient::new(),
            overrides,
            tlds,
        }
    }

    /// The same client with another timeout.
    pub fn with_timeout(self, timeout_secs: u64) -> (r: Self)
        ensures
            r.timeout_secs == timeout_secs,
            r.follow_referrals == self.follow_referrals,
            r.overrides@ == self.overrides@,
            r.tlds@ == self.tlds@,
    {
        RdapClient { timeout_secs, ..self }
    }

    /// The same client with referral following switched on or off.
    pub fn with_referrals(self, follow: bool) -> (r: Self)
        ensures
            r.timeout_secs == self.timeout_secs,
            r.follow_referrals == follow,
            r.overrides@ == self.overrides@,
            r.tlds@ == self.tlds@,
    {
        RdapClient { follow_referrals: follow, ..self }
    }

    /// Where the servers of a request come from (see `plan_servers`).
    pub fn plan(&self, request: &RdapRequest) -> (r: Result<ServerPlan, RdapError>)
        ensures
            planned(*request, self.overrides@, self.tlds@, r),
    {
        plan_servers(request, &self.overrides, &self.tlds)
    }
}

} // verus!
