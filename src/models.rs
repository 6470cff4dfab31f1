//! The parts of a registration-data document that the library reads or hands on.

use vstd::prelude::*;

verus! {

/// Link to related resources
#[derive(Debug, Clone)]
pub struct Link {
    pub value: Option<String>,
    pub rel: Option<String>,
    pub href: String,
    pub hreflang: Vec<String>,
    pub title: Option<String>,
    pub media: Option<String>,
    pub link_type: Option<String>,
}

/// Notice or remark
#[derive(Debug, Clone)]
pub struct Notice {
    pub title: Option<String>,
    pub notice_type: Option<String>,
    pub description: Vec<String>,
    pub links: Vec<Link>,
}

/// Event information
#[derive(Debug, Clone)]
pub struct Event {
    pub action: String,
    pub actor: Option<String>,
    pub date: String,
    pub links: Vec<Link>,
}

/// Public identifier
#[derive(Debug, Clone)]
pub struct PublicId {
    pub id_type: String,
    pub identifier: String,
}

/// Domain variant
#[derive(Debug, Clone)]
pub struct Variant {
    pub relation: Vec<String>,
    pub idn_table: Option<String>,
    pub variant_names: Vec<VariantName>,
}

/// Variant name
#[derive(Debug, Clone)]
pub struct VariantName {
    pub ldh_name: Option<String>,
    pub unicode_name: Option<String>,
}

/// DNSSEC information
#[derive(Debug, Clone)]
pub struct SecureDNS {
    pub zone_signed: Option<bool>,
    pub delegation_signed: Option<bool>,
    pub max_sig_life: Option<u64>,
    pub ds_data: Vec<DSData>,
    pub key_data: Vec<KeyData>,
}

/// DS record data
#[derive(Debug, Clone)]
pub struct DSData {
    pub key_tag: Option<u64>,
    pub algorithm: Option<u8>,
    pub digest: Option<String>,
    pub digest_type: Option<u8>,
    pub events: Vec<Event>,
    pub links: Vec<Link>,
}

/// DNSKEY data
#[derive(Debug, Clone)]
pub struct KeyData {
    pub flags: Option<u16>,
    pub protocol: Option<u8>,
    pub algorithm: Option<u8>,
    pub public_key: Option<String>,
    pub events: Vec<Event>,
    pub links: Vec<Link>,
}

/// An error document returned by a server.
#[derive(Debug, Clone)]
pub struct ErrorResponse {
    pub conformance: Vec<String>,
    pub notices: Vec<Notice>,
    pub error_code: Option<u16>,
    pub title: Option<String>,
    pub description: Vec<String>,
    pub lang: Option<String>,
}

/// Help response
#[derive(Debug, Clone)]
pub struct HelpResponse {
    pub conformance: Vec<String>,
    pub notices: Vec<Notice>,
    pub lang: Option<String>,
}

/// IP address set for nameserver
#[derive(Debug, Clone)]
pub struct IpAddressSet {
    pub v4: Vec<String>,
    pub v6: Vec<String>,
}

/// vCard value types
#[derive(Debug, Clone)]
pub enum VCardValue {
    Text(String),
    Structured(Vec<String>),
    Array(Vec<String>),
}

impl VCardValue {
    /// The text of a plain text value.
    pub fn as_str(&self) -> (r: Option<&str>)
        ensures
            r matches Some(s) ==> self is Text && s@ == self->Text_0@,
            r is None ==> !(self is Text),
    {
        match self {
            VCardValue::Text(s) => Some(s.as_str()),
            _ => None,
        }
    }
}

/// Parsed address
#[derive(Debug, Clone)]
pub struct VCardAddress {
    pub po_box: String,
    pub extended: String,
    pub street: String,
    pub locality: String,
    pub region: String,
    pub postal_code: String,
    pub country: String,
}

/// A contact attached to a record: its roles and its own links.
#[derive(Debug, Clone)]
pub struct Contact {
    pub roles: Vec<String>,
    pub links: Vec<Link>,
}

} // verus!
