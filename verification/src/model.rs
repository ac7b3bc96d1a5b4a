//! The structured message and the verification options.
use vstd::prelude::*;

use crate::address::addr_hex_ok;
use crate::text::no_nl;
use crate::validity::{authority_ok, rfc3339_ok, uri_ok};

verus! {

/// Ghost mirror of `Parsed`: the structured message over character sequences.
pub ghost struct MsgView {
    pub domain: Seq<char>,
    pub address: Seq<char>,
    pub statement: Option<Seq<char>>,
    pub uri: Seq<char>,
    pub version: Seq<char>,
    pub chain_id: u64,
    pub nonce: Seq<char>,
    pub issued_at: Seq<char>,
    pub expiration_time: Option<Seq<char>>,
    pub not_before: Option<Seq<char>>,
    pub request_id: Option<Seq<char>>,
    pub resources: Seq<Seq<char>>,
}

/// A structured Sign-In with Ethereum message.
///
/// Timestamps are kept in their textual RFC-3339 form, the address as a
/// `0x`-prefixed hexadecimal string; parsing stores the address in its
/// checksummed rendering.
pub struct Parsed {
    pub domain: String,
    pub address: String,
    pub statement: Option<String>,
    pub uri: String,
    pub version: String,
    pub chain_id: u64,
    pub nonce: String,
    pub issued_at: String,
    pub expiration_time: Option<String>,
    pub not_before: Option<String>,
    pub request_id: Option<String>,
    pub resources: Vec<String>,
}

impl View for Parsed {
    type V = MsgView;

    open spec fn view(&self) -> MsgView {
        MsgView {
            domain: self.domain@,
            address: self.address@,
            statement: self.statement.deep_view(),
            uri: self.uri@,
            version: self.version@,
            chain_id: self.chain_id,
            nonce: self.nonce@,
            issued_at: self.issued_at@,
            expiration_time: self.expiration_time.deep_view(),
            not_before: self.not_before.deep_view(),
            request_id: self.request_id.deep_view(),
            resources: self.resources.deep_view(),
        }
    }
}

/// Ghost mirror of `VerifyOptions`.
pub ghost struct OptsView {
    pub domain: Option<Seq<char>>,
    pub nonce: Option<Seq<char>>,
    pub timestamp: Option<Seq<char>>,
    pub rpc_url: Option<Seq<char>>,
}

/// The constraints a verification call enforces: an expected domain, an
/// expected nonce, an override for "now", and an optional chain endpoint that
/// enables contract-based signature validation.
pub struct VerifyOptions {
    pub domain: Option<String>,
    pub nonce: Option<String>,
    pub timestamp: Option<String>,
    pub rpc_url: Option<String>,
}

impl View for VerifyOptions {
    type V = OptsView;

    open spec fn view(&self) -> OptsView {
        OptsView {
            domain: self.domain.deep_view(),
            nonce: self.nonce.deep_view(),
            timestamp: self.timestamp.deep_view(),
            rpc_url: self.rpc_url.deep_view(),
        }
    }
}

/// A message whose every field satisfies its invariant; exactly these
/// serialize, and serializing then parsing is the identity up to address
/// checksumming.
pub open spec fn serializable(v: MsgView) -> bool {
    &&& authority_ok(v.domain) && no_nl(v.domain)
    &&& addr_hex_ok(v.address)
    &&& match v.statement {
        Some(s) => s.len() > 0 && no_nl(s),
        None => true,
    }
    &&& uri_ok(v.uri) && no_nl(v.uri)
    &&& v.version == seq!['1']
    &&& v.nonce.len() >= 8 && no_nl(v.nonce)
    &&& rfc3339_ok(v.issued_at) && no_nl(v.issued_at)
    &&& match v.expiration_time {
        Some(s) => rfc3339_ok(s) && no_nl(s),
        None => true,
    }
    &&& match v.not_before {
        Some(s) => rfc3339_ok(s) && no_nl(s),
        None => true,
    }
    &&& match v.request_id {
        Some(s) => no_nl(s),
        None => true,
    }
    &&& forall|i: int| 0 <= i < v.resources.len() ==> uri_ok(#[trigger] v.resources[i]) && no_nl(
        v.resources[i],
    )
}

} // verus!
