//! The error kinds of a query.

use vstd::prelude::*;

verus! {

/// Why a query failed.
///
/// Transport, decoding and file errors are carried as their messages: the
/// library never holds the values that produced them.
#[derive(Debug, Clone, PartialEq, Eq)]
pub enum RdapError {
    /// The HTTP transport failed.
    Http(String),
    /// A document could not be decoded.
    Json(String),
    /// A local file could not be read or written.
    Io(String),
    /// The bootstrap registry could not be used, or the query needs an explicit server.
    Bootstrap(String),
    /// The query is malformed; found before any network access.
    InvalidQuery(String),
    /// The server answered 404: the object does not exist.
    NotFound,
    /// No candidate server gave an answer.
    NoWorkingServers,
    /// The server reported an error other than 404.
    ServerError { code: u16, title: String, description: Vec<String> },
    /// A URL could not be built.
    InvalidUrl(String),
    /// The transport timed out.
    Timeout,
    /// The bootstrap cache could not be used.
    Cache(String),
    /// Any other failure.
    Other(String),
}

} // verus!
