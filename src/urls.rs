//! Server URLs, held as the text that `url::Url` serialises them to.

use vstd::prelude::*;

verus! {

/// The serialisation of what `url::Url::parse` reads from a string, when it reads a URL.
pub uninterp spec fn parsed_url(s: Seq<char>) -> Option<Seq<char>>;

/// The host that `url::Url::host_str` gives for a URL string, when it parses and has one.
pub uninterp spec fn host_of(u: Seq<char>) -> Option<Seq<char>>;

/// Relies on `url::Url::parse`: the URL in its serialised form, or `None` when it does not parse.
#[verifier::external_body]
pub(crate) fn parse_url(s: &str) -> (r: Option<String>)
    ensures
        r matches Some(u) ==> parsed_url(s@) == Some(u@),
        r is None ==> parsed_url(s@) is None,
{
    match url::Url::parse(s) {
        Ok(u) => Some(u.to_string()),
        Err(_) => None,
    }
}

/// Relies on `url::Url::host_str`, after reading the URL with `url::Url::parse`.
#[verifier::external_body]
pub(crate) fn url_host(u: &str) -> (r: Option<String>)
    ensures
        r matches Some(h) ==> host_of(u@) == Some(h@),
        r is None ==> host_of(u@) is None,
{
    let parsed = match url::Url::parse(u) {
        Ok(parsed) => parsed,
        Err(_) => return None,
    };
    match parsed.host_str() {
        Some(h) => Some(h.to_string()),
        None => None,
    }
}

/// What `Url::join` makes of a base URL and a relative reference, when it succeeds.
pub uninterp spec fn joined_url(base: Seq<char>, relative: Seq<char>) -> Option<Seq<char>>;

/// Relies on `url::Url::join`, after reading the base back with `url::Url::parse`.
/// The error is the parse error's message.
#[verifier::external_body]
pub(crate) fn join_url(base: &str, relative: &str) -> (r: Result<String, String>)
    ensures
        r matches Ok(u) ==> joined_url(base@, relative@) == Some(u@),
        r is Err ==> joined_url(base@, relative@) is None,
{
    let b = match url::Url::parse(base) {
        Ok(b) => b,
        Err(e) => return Err(e.to_string()),
    };
    match b.join(relative) {
        Ok(u) => Ok(u.to_string()),
        Err(e) => Err(e.to_string()),
    }
}

/// The URLs among `us` that parse, in order, each in its serialised form.
pub open spec fn parsed_urls(us: Seq<String>) -> Seq<Seq<char>>
    decreases us.len(),
{
    if us.len() == 0 {
        Seq::empty()
    } else {
        let rest = parsed_urls(us.drop_last());
        match parsed_url(us.last()@) {
            Some(u) => rest.push(u),
            None => rest,
        }
    }
}

/// The characters of each string.
pub open spec fn views(v: Seq<String>) -> Seq<Seq<char>> {
    v.map_values(|s: String| s@)
}

/// The URLs among `us` that parse, in order, each in its serialised form.
pub fn valid_urls(us: &Vec<String>) -> (r: Vec<String>)
    ensures
        views(r@) == parsed_urls(us@),
{
    let mut r: Vec<String> = Vec::new();
    let mut i: usize = 0;
    while i < us.len()
        invariant
            i <= us@.len(),
            views(r@) == parsed_urls(us@.subrange(0, i as int)),
        decreases us@.len() - i,
    {
        assert(us@.subrange(0, i + 1).drop_last() =~= us@.subrange(0, i as int));
        match parse_url(us[i].as_str()) {
            Some(u) => {
                r.push(u);
                assert(views(r@) =~= parsed_urls(us@.subrange(0, i as int)).push(r@.last()@));
            },
            None => {},
        }
        i = i + 1;
    }
    assert(us@.subrange(0, us@.len() as int) =~= us@);
    r
}

} // verus!
