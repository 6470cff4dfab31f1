//! Resolution and querying of registration-data (RDAP) servers.
//!
//! The library decides which server is authoritative for a query, builds the
//! request URL, walks the candidate servers, applies the IPv6 and referral
//! policies, and classifies what came back. Network and file access stay with
//! the caller, which runs the state machines of `client`.

pub mod bootstrap;
pub mod client;
pub mod config;
pub mod error;
pub mod ip;
pub mod models;
pub mod request;
pub mod text;
pub mod urls;

pub use client::RdapClient;
pub use error::RdapError;
pub use models::{
    Contact, DSData, ErrorResponse, Event, HelpResponse, IpAddressSet, KeyData, Link, Notice,
    PublicId, SecureDNS, VCardAddress, VCardValue, Variant, VariantName,
};
pub use request::{QueryType, RdapRequest};
