//! IP addresses and CIDR blocks as plain integers.

use vstd::prelude::*;
use vstd::string::StringExecFns;
use crate::text::{chars_of, is_first_index, parse_u32, parsed_u32, string_of, substring};

verus! {

/// An IPv4 or IPv6 address, as the integer of its bits.
#[derive(Debug, Clone, Copy, PartialEq, Eq, Structural)]
pub enum IpAddress {
    V4(u32),
    V6(u128),
}

/// The address that `url::Host::parse` reads from a host string, if it reads one.
pub uninterp spec fn ip_host_of(s: Seq<char>) -> Option<IpAddress>;

/// Relies on `url::Host::parse`: an IPv4 host (shorthand forms such as `1.1`
/// included) or a bracketed IPv6 host becomes its address bits; a domain or an
/// error gives no address.
#[verifier::external_body]
fn parse_host_address(s: &str) -> (r: Option<IpAddress>)
    ensures
        r == ip_host_of(s@),
{
    match url::Host::parse(s) {
        Ok(url::Host::Ipv4(a)) => Some(IpAddress::V4(u32::from(a))),
        Ok(url::Host::Ipv6(a)) => Some(IpAddress::V6(u128::from(a))),
        Ok(url::Host::Domain(_)) => None,
        Err(_) => None,
    }
}

pub open spec fn has_char(s: Seq<char>, c: char) -> bool {
    exists|i: int| 0 <= i < s.len() && s[i] == c
}

/// The address that an address literal denotes: one with a `:` is read as IPv6.
pub open spec fn ip_literal(s: Seq<char>) -> Option<IpAddress> {
    if has_char(s, ':') {
        ip_host_of("["@ + s + "]"@)
    } else {
        ip_host_of(s)
    }
}

/// The number of bits of an address of this family.
pub open spec fn width(a: IpAddress) -> nat {
    match a {
        IpAddress::V4(_) => 32,
        IpAddress::V6(_) => 128,
    }
}

/// `a` with all but its first `p` bits cleared.
pub open spec fn network_of(a: IpAddress, p: nat) -> IpAddress {
    match a {
        IpAddress::V4(x) => if p == 0 || p > 32 {
            IpAddress::V4(0)
        } else {
            IpAddress::V4((x >> ((32 - p) as u32)) << ((32 - p) as u32))
        },
        IpAddress::V6(x) => if p == 0 || p > 128 {
            IpAddress::V6(0)
        } else {
            IpAddress::V6((x >> ((128 - p) as u128)) << ((128 - p) as u128))
        },
    }
}

/// `a` and `b` are of one family and agree on their first `p` bits.
pub open spec fn same_prefix(a: IpAddress, b: IpAddress, p: nat) -> bool {
    match (a, b) {
        (IpAddress::V4(x), IpAddress::V4(y)) => p <= 32 && (p == 0 || x >> ((32 - p) as u32) == y
            >> ((32 - p) as u32)),
        (IpAddress::V6(x), IpAddress::V6(y)) => p <= 128 && (p == 0 || x >> ((128 - p) as u128)
            == y >> ((128 - p) as u128)),
        _ => false,
    }
}

/// The prefix length written after a CIDR block's `/`; text that is not a `u8` counts as 0.
pub open spec fn prefix_len_of(s: Seq<char>) -> nat {
    match parsed_u32(s) {
        Some(v) => if v <= 255 {
            v as nat
        } else {
            0
        },
        None => 0,
    }
}

/// The CIDR block `pattern` (`address/length`) contains `a`.
pub open spec fn cidr_contains(pattern: Seq<char>, a: IpAddress) -> bool {
    exists|i: int|
        is_first_index(pattern, '/', i) && match ip_literal(pattern.subrange(0, i)) {
            Some(net) => same_prefix(net, a, prefix_len_of(pattern.subrange(i + 1, pattern.len() as int))),
            None => false,
        }
}

/// The address an IP query stands for: for `address/length`, the network address
/// of that block; otherwise the address itself.
pub open spec fn query_address(q: Seq<char>) -> Option<IpAddress> {
    if has_char(q, '/') {
        let i = choose|i: int| is_first_index(q, '/', i);
        match (ip_literal(q.subrange(0, i)), parsed_u32(q.subrange(i + 1, q.len() as int))) {
            (Some(a), Some(p)) => if p as nat <= width(a) {
                Some(network_of(a, p as nat))
            } else {
                None
            },
            _ => None,
        }
    } else {
        ip_literal(q)
    }
}

/// The address that the literal `cs` denotes.
pub fn read_ip_literal(cs: &Vec<char>) -> (r: Option<IpAddress>)
    ensures
        r == ip_literal(cs@),
{
    let s = string_of(cs.as_slice());
    let mut has_colon = false;
    let mut i: usize = 0;
    while i < cs.len()
        invariant
            i <= cs@.len(),
            has_colon == (exists|j: int| 0 <= j < i && cs@[j] == ':'),
        decreases cs@.len() - i,
    {
        if cs[i] == ':' {
            has_colon = true;
        }
        i = i + 1;
    }
    if has_colon {
        let bracketed = String::from_str("[").concat(s.as_str()).concat("]");
        parse_host_address(bracketed.as_str())
    } else {
        parse_host_address(s.as_str())
    }
}

/// `a` with all but its first `p` bits cleared.
pub fn network_address(a: IpAddress, p: u32) -> (r: IpAddress)
    ensures
        r == network_of(a, p as nat),
{
    match a {
        IpAddress::V4(x) => if p == 0 || p > 32 {
            IpAddress::V4(0)
        } else {
            IpAddress::V4((x >> (32 - p)) << (32 - p))
        },
        IpAddress::V6(x) => if p == 0 || p > 128 {
            IpAddress::V6(0)
        } else {
            let s: u128 = (128 - p) as u128;
            IpAddress::V6((x >> s) << s)
        },
    }
}

/// Whether `a` and `b` are of one family and agree on their first `p` bits.
pub fn prefix_agrees(a: IpAddress, b: IpAddress, p: u32) -> (r: bool)
    ensures
        r == same_prefix(a, b, p as nat),
{
    match (a, b) {
        (IpAddress::V4(x), IpAddress::V4(y)) => p <= 32 && (p == 0 || x >> (32 - p) == y >> (32
            - p)),
        (IpAddress::V6(x), IpAddress::V6(y)) => {
            if p > 128 {
                false
            } else if p == 0 {
                true
            } else {
                let s: u128 = (128 - p) as u128;
                x >> s == y >> s
            }
        },
        _ => false,
    }
}

/// Whether the CIDR block `pattern` contains `a`.
pub fn cidr_holds(pattern: &str, a: IpAddress) -> (r: bool)
    ensures
        r == cidr_contains(pattern@, a),
{
    let cs = chars_of(pattern);
    let n = cs.len();
    match crate::text::find_char(&cs, '/') {
        None => {
            assert forall|i: int| !is_first_index(cs@, '/', i) by {}
            false
        },
        Some(i) => {
            let head = substring(&cs, 0, i);
            let head_chars = chars_of(head.as_str());
            let tail = substring(&cs, i + 1, n);
            let tail_chars = chars_of(tail.as_str());
            let p: u32 = match parse_u32(&tail_chars) {
                Some(v) => if v <= 255 {
                    v
                } else {
                    0
                },
                None => 0,
            };
            assert forall|k: int| is_first_index(cs@, '/', k) implies k == i by {
                if k < i {
                    assert(cs@[k] != '/');
                } else if k > i {
                    assert(cs@[i as int] != '/');
                }
            }
            match read_ip_literal(&head_chars) {
                Some(net) => prefix_agrees(net, a, p),
                None => false,
            }
        },
    }
}

/// The address an IP query stands for, or `None` when it is malformed.
pub fn read_query_address(q: &str) -> (r: Option<IpAddress>)
    ensures
        r == query_address(q@),
{
    let cs = chars_of(q);
    let n = cs.len();
    match crate::text::find_char(&cs, '/') {
        None => {
            assert(!has_char(cs@, '/'));
            read_ip_literal(&cs)
        },
        Some(i) => {
            assert(has_char(cs@, '/'));
            assert forall|k: int| is_first_index(cs@, '/', k) implies k == i by {
                if k < i {
                    assert(cs@[k] != '/');
                } else if k > i {
                    assert(cs@[i as int] != '/');
                }
            }
            let head = substring(&cs, 0, i);
            let head_chars = chars_of(head.as_str());
            let tail = substring(&cs, i + 1, n);
            let tail_chars = chars_of(tail.as_str());
            match (read_ip_literal(&head_chars), parse_u32(&tail_chars)) {
                (Some(a), Some(p)) => {
                    let w: u32 = match a {
                        IpAddress::V4(_) => 32,
                        IpAddress::V6(_) => 128,
                    };
                    if p <= w {
                        Some(network_address(a, p))
                    } else {
                        None
                    }
                },
                _ => None,
            }
        },
    }
}

} // verus!
