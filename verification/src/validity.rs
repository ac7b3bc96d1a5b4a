//! Field validity checks supplied by outside crates: authority syntax, URI
//! syntax, and RFC-3339 timestamps, plus the wall clock.
use vstd::prelude::*;

verus! {

/// Whether `s` is in RFC-3986 authority syntax (`host[:port]`, with optional
/// user information); decided by an outside parser.
pub uninterp spec fn authority_ok(s: Seq<char>) -> bool;

/// Relies on `http::uri::Authority`'s `FromStr`: it accepts exactly the
/// strings in authority syntax, and acceptance is a function of the string
/// alone.
#[verifier::external_body]
pub fn check_authority(s: &str) -> (r: bool)
    ensures
        r == authority_ok(s@),
{
    s.parse::<http::uri::Authority>().is_ok()
}

/// Whether `s` is an RFC-3986 URI; decided by an outside parser.
pub uninterp spec fn uri_ok(s: Seq<char>) -> bool;

/// Relies on `iri_string::types::UriString`'s `FromStr`: it accepts exactly
/// the strings in URI syntax, and acceptance is a function of the string
/// alone.
#[verifier::external_body]
pub fn check_uri(s: &str) -> (r: bool)
    ensures
        r == uri_ok(s@),
{
    s.parse::<iri_string::types::UriString>().is_ok()
}

/// The instant an RFC-3339 timestamp string denotes, as nanoseconds since the
/// Unix epoch, or `None` when the string is not a well-formed timestamp;
/// decided by an outside parser.
pub uninterp spec fn rfc3339_nanos(s: Seq<char>) -> Option<i128>;

/// True when `s` is a well-formed RFC-3339 timestamp.
pub open spec fn rfc3339_ok(s: Seq<char>) -> bool {
    rfc3339_nanos(s) is Some
}

/// Relies on `time::OffsetDateTime::parse` with the RFC-3339 well-known
/// format: which strings parse, and the instant each denotes, are functions
/// of the string alone; `unix_timestamp_nanos` renders that instant as
/// nanoseconds since the Unix epoch.
#[verifier::external_body]
pub fn parse_rfc3339(s: &str) -> (r: Option<i128>)
    ensures
        r == rfc3339_nanos(s@),
{
    match time::OffsetDateTime::parse(s, &time::format_description::well_known::Rfc3339) {
        Ok(t) => Some(t.unix_timestamp_nanos()),
        Err(_) => None,
    }
}

/// Relies on `time::OffsetDateTime::now_utc`: the wall clock, as nanoseconds
/// since the Unix epoch. Nothing is assumed of the value.
#[verifier::external_body]
pub fn now_unix_nanos() -> i128 {
    time::OffsetDateTime::now_utc().unix_timestamp_nanos()
}

} // verus!
