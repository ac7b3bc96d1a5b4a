//! The canonical EIP-4361 text grammar: rendering a structured message to its
//! canonical text, and parsing that text back.
//!
//! `render` and `parse_text` are the specification; `to_str` and `parse` are
//! the verified implementations. Parsing is strict: the layout must match
//! exactly, every field must be valid, and the one normalization applied is
//! re-casing the address into its checksummed form. Unlike the lenient
//! handling sometimes seen around optional fields, a present but malformed
//! optional timestamp is an error here, both on parse and on serialization.
use vstd::prelude::*;

use crate::address::{addr_bytes, addr_hex_ok, checksum_address, decode_addr_line, eip55_of};
use crate::hexnum::{dec_of, dec_val, is_dec_u64, parse_u64_dec, u64_to_dec};
use crate::model::{serializable, MsgView, Parsed};
use crate::text::{
    chars_to_string, ends_with, ends_with_tag, join_lines, join_lines_exec, no_nl, no_nl_exec,
    push_str_chars, split_lines, split_lines_exec, starts_with, starts_with_tag, str_chars,
    sub_chars,
};
use crate::validity::{authority_ok, check_authority, check_uri, parse_rfc3339, rfc3339_ok, uri_ok};

verus! {

/// Why a canonical text failed to parse.
#[derive(Clone, Copy, Debug, PartialEq, Eq)]
pub enum ParseError {
    /// A line is missing, unexpected, or not in the fixed layout.
    Layout,
    /// The domain is not in authority syntax.
    Domain,
    /// The address line is not `0x` and forty hexadecimal digits.
    Address,
    /// The URI line is missing or its value is not a URI.
    Uri,
    /// The version line is missing or its value is not `1`.
    Version,
    /// The chain-id line is missing or its value is not an unsigned 64-bit decimal.
    ChainId,
    /// The nonce line is missing or its value is shorter than eight characters.
    Nonce,
    /// A timestamp line is missing or its value is not an RFC-3339 timestamp.
    Timestamp,
    /// A resource line is not a bulleted URI.
    Resource,
}

/// Which field of a directly constructed message fails its invariant.
#[derive(Clone, Copy, Debug, PartialEq, Eq)]
pub enum FormatError {
    /// Not in authority syntax, or holds a line delimiter.
    Domain,
    /// Not `0x` and forty hexadecimal digits.
    Address,
    /// Present but empty, or holds a line delimiter.
    Statement,
    /// Not a URI, or holds a line delimiter.
    Uri,
    /// Not `1`.
    Version,
    /// Shorter than eight characters, or holds a line delimiter.
    Nonce,
    /// Not an RFC-3339 timestamp, or holds a line delimiter.
    Timestamp,
    /// Holds a line delimiter.
    RequestId,
    /// Not a URI, or holds a line delimiter.
    Resource,
}

pub open spec fn preamble() -> Seq<char> {
    " wants you to sign in with your Ethereum account:"@
}

pub open spec fn uri_tag() -> Seq<char> {
    "URI: "@
}

pub open spec fn version_tag() -> Seq<char> {
    "Version: "@
}

pub open spec fn chain_tag() -> Seq<char> {
    "Chain ID: "@
}

pub open spec fn nonce_tag() -> Seq<char> {
    "Nonce: "@
}

pub open spec fn iat_tag() -> Seq<char> {
    "Issued At: "@
}

pub open spec fn exp_tag() -> Seq<char> {
    "Expiration Time: "@
}

pub open spec fn nbf_tag() -> Seq<char> {
    "Not Before: "@
}

pub open spec fn rid_tag() -> Seq<char> {
    "Request ID: "@
}

pub open spec fn res_tag() -> Seq<char> {
    "Resources:"@
}

pub open spec fn bullet() -> Seq<char> {
    "- "@
}

/// The line an optional tagged field contributes, if present.
pub open spec fn opt_line(tag: Seq<char>, v: Option<Seq<char>>) -> Seq<Seq<char>> {
    match v {
        None => Seq::<Seq<char>>::empty(),
        Some(s) => seq![tag + s],
    }
}

/// The line a statement contributes, if present.
pub open spec fn stmt_lines(st: Option<Seq<char>>) -> Seq<Seq<char>> {
    match st {
        None => Seq::<Seq<char>>::empty(),
        Some(s) => seq![s],
    }
}

/// The lines a resource list contributes: nothing when empty, else the
/// `Resources:` header and one bulleted line per resource.
pub open spec fn res_lines(rs: Seq<Seq<char>>) -> Seq<Seq<char>> {
    if rs.len() == 0 {
        Seq::<Seq<char>>::empty()
    } else {
        seq![res_tag()] + rs.map_values(|r: Seq<char>| bullet() + r)
    }
}

/// The lines of the canonical text of `v`; the address is always rendered in
/// its checksummed form.
pub open spec fn msg_lines(v: MsgView) -> Seq<Seq<char>> {
    seq![
        v.domain + preamble(),
        eip55_of(addr_bytes(v.address)),
        Seq::<char>::empty(),
    ] + stmt_lines(v.statement) + seq![
        Seq::<char>::empty(),
        uri_tag() + v.uri,
        version_tag() + v.version,
        chain_tag() + dec_of(v.chain_id as nat),
        nonce_tag() + v.nonce,
        iat_tag() + v.issued_at,
    ] + opt_line(exp_tag(), v.expiration_time) + opt_line(nbf_tag(), v.not_before) + opt_line(
        rid_tag(),
        v.request_id,
    ) + res_lines(v.resources)
}

/// The canonical text of `v`.
pub open spec fn render(v: MsgView) -> Seq<char> {
    join_lines(msg_lines(v))
}

/// The value of a tagged line.
pub open spec fn tag_val(line: Seq<char>, tag: Seq<char>) -> Seq<char> {
    line.skip(tag.len() as int)
}

/// The raw fields cut out of the lines, before validation.
pub ghost struct RawMsg {
    pub domain: Seq<char>,
    pub address: Seq<char>,
    pub statement: Option<Seq<char>>,
    pub uri: Seq<char>,
    pub version: Seq<char>,
    pub chain: Seq<char>,
    pub nonce: Seq<char>,
    pub issued_at: Seq<char>,
    pub expiration_time: Option<Seq<char>>,
    pub not_before: Option<Seq<char>>,
    pub request_id: Option<Seq<char>>,
    pub resources: Seq<Seq<char>>,
}

/// Parses the bulleted resource lines from `j` to the end.
pub open spec fn parse_resources(ls: Seq<Seq<char>>, j: int) -> Result<Seq<Seq<char>>, ParseError>
    decreases ls.len() - j,
{
    if j >= ls.len() {
        Ok(Seq::<Seq<char>>::empty())
    } else if starts_with(ls[j], bullet()) {
        match parse_resources(ls, j + 1) {
            Ok(rest) => Ok(seq![tag_val(ls[j], bullet())] + rest),
            Err(e) => Err(e),
        }
    } else {
        Err(ParseError::Resource)
    }
}

/// Parses the optional tagged lines and the resource section from `j` on.
pub open spec fn parse_optionals(ls: Seq<Seq<char>>, j: int) -> Result<
    (Option<Seq<char>>, Option<Seq<char>>, Option<Seq<char>>, Seq<Seq<char>>),
    ParseError,
> {
    let exp = if j < ls.len() && starts_with(ls[j], exp_tag()) {
        Some(tag_val(ls[j], exp_tag()))
    } else {
        None
    };
    let j1 = if exp is Some {
        j + 1
    } else {
        j
    };
    let nbf = if j1 < ls.len() && starts_with(ls[j1], nbf_tag()) {
        Some(tag_val(ls[j1], nbf_tag()))
    } else {
        None
    };
    let j2 = if nbf is Some {
        j1 + 1
    } else {
        j1
    };
    let rid = if j2 < ls.len() && starts_with(ls[j2], rid_tag()) {
        Some(tag_val(ls[j2], rid_tag()))
    } else {
        None
    };
    let j3 = if rid is Some {
        j2 + 1
    } else {
        j2
    };
    if j3 >= ls.len() {
        Ok((exp, nbf, rid, Seq::<Seq<char>>::empty()))
    } else if ls[j3] == res_tag() {
        match parse_resources(ls, j3 + 1) {
            Ok(rs) => Ok((exp, nbf, rid, rs)),
            Err(e) => Err(e),
        }
    } else {
        Err(ParseError::Layout)
    }
}

/// Cuts the raw fields out of the lines of a canonical text.
pub open spec fn parse_lines(ls: Seq<Seq<char>>) -> Result<RawMsg, ParseError> {
    if ls.len() < 1 || !ends_with(ls[0], preamble()) {
        Err(ParseError::Layout)
    } else if ls.len() < 2 {
        Err(ParseError::Layout)
    } else if !addr_hex_ok(ls[1]) {
        Err(ParseError::Address)
    } else if ls.len() < 3 || ls[2].len() != 0 {
        Err(ParseError::Layout)
    } else if ls.len() < 4 {
        Err(ParseError::Layout)
    } else {
        let domain = ls[0].take(ls[0].len() - preamble().len());
        let stmt = if ls[3].len() == 0 {
            Option::<Seq<char>>::None
        } else {
            Some(ls[3])
        };
        let k: int = if ls[3].len() == 0 {
            4
        } else {
            5
        };
        if stmt is Some && (ls.len() < 5 || ls[4].len() != 0) {
            Err(ParseError::Layout)
        } else if ls.len() <= k || !starts_with(ls[k], uri_tag()) {
            Err(ParseError::Uri)
        } else if ls.len() <= k + 1 || !starts_with(ls[k + 1], version_tag()) {
            Err(ParseError::Version)
        } else if ls.len() <= k + 2 || !starts_with(ls[k + 2], chain_tag()) {
            Err(ParseError::ChainId)
        } else if ls.len() <= k + 3 || !starts_with(ls[k + 3], nonce_tag()) {
            Err(ParseError::Nonce)
        } else if ls.len() <= k + 4 || !starts_with(ls[k + 4], iat_tag()) {
            Err(ParseError::Timestamp)
        } else {
            match parse_optionals(ls, k + 5) {
                Err(e) => Err(e),
                Ok((exp, nbf, rid, rs)) => Ok(
                    RawMsg {
                        domain,
                        address: ls[1],
                        statement: stmt,
                        uri: tag_val(ls[k], uri_tag()),
                        version: tag_val(ls[k + 1], version_tag()),
                        chain: tag_val(ls[k + 2], chain_tag()),
                        nonce: tag_val(ls[k + 3], nonce_tag()),
                        issued_at: tag_val(ls[k + 4], iat_tag()),
                        expiration_time: exp,
                        not_before: nbf,
                        request_id: rid,
                        resources: rs,
                    },
                ),
            }
        }
    }
}

/// Validates the raw fields and normalizes the address to its checksummed
/// rendering and the chain id to its numeric value.
pub open spec fn validate(raw: RawMsg) -> Result<MsgView, ParseError> {
    if !authority_ok(raw.domain) {
        Err(ParseError::Domain)
    } else if raw.version != seq!['1'] {
        Err(ParseError::Version)
    } else if !is_dec_u64(raw.chain) {
        Err(ParseError::ChainId)
    } else if raw.nonce.len() < 8 {
        Err(ParseError::Nonce)
    } else if !uri_ok(raw.uri) {
        Err(ParseError::Uri)
    } else if !rfc3339_ok(raw.issued_at) {
        Err(ParseError::Timestamp)
    } else if !(match raw.expiration_time {
        Some(s) => rfc3339_ok(s),
        None => true,
    }) {
        Err(ParseError::Timestamp)
    } else if !(match raw.not_before {
        Some(s) => rfc3339_ok(s),
        None => true,
    }) {
        Err(ParseError::Timestamp)
    } else if !(forall|i: int| 0 <= i < raw.resources.len() ==> uri_ok(#[trigger] raw.resources[i]))
     {
        Err(ParseError::Resource)
    } else {
        Ok(
            MsgView {
                domain: raw.domain,
                address: eip55_of(addr_bytes(raw.address)),
                statement: raw.statement,
                uri: raw.uri,
                version: raw.version,
                chain_id: dec_val(raw.chain) as u64,
                nonce: raw.nonce,
                issued_at: raw.issued_at,
                expiration_time: raw.expiration_time,
                not_before: raw.not_before,
                request_id: raw.request_id,
                resources: raw.resources,
            },
        )
    }
}

/// What parsing the text `t` yields: the structured message with the address
/// checksummed, or the first error of the fixed checking order.
pub open spec fn parse_text(t: Seq<char>) -> Result<MsgView, ParseError> {
    match parse_lines(split_lines(t)) {
        Err(e) => Err(e),
        Ok(raw) => validate(raw),
    }
}

/// Which invariant a directly constructed message breaks, in a fixed checking
/// order; `Ok` exactly on serializable messages.
pub open spec fn format_check(v: MsgView) -> Result<(), FormatError> {
    if !(authority_ok(v.domain) && no_nl(v.domain)) {
        Err(FormatError::Domain)
    } else if !addr_hex_ok(v.address) {
        Err(FormatError::Address)
    } else if !(match v.statement {
        Some(s) => s.len() > 0 && no_nl(s),
        None => true,
    }) {
        Err(FormatError::Statement)
    } else if !(uri_ok(v.uri) && no_nl(v.uri)) {
        Err(FormatError::Uri)
    } else if v.version != seq!['1'] {
        Err(FormatError::Version)
    } else if !(v.nonce.len() >= 8 && no_nl(v.nonce)) {
        Err(FormatError::Nonce)
    } else if !(rfc3339_ok(v.issued_at) && no_nl(v.issued_at)) {
        Err(FormatError::Timestamp)
    } else if !(match v.expiration_time {
        Some(s) => rfc3339_ok(s) && no_nl(s),
        None => true,
    }) {
        Err(FormatError::Timestamp)
    } else if !(match v.not_before {
        Some(s) => rfc3339_ok(s) && no_nl(s),
        None => true,
    }) {
        Err(FormatError::Timestamp)
    } else if !(match v.request_id {
        Some(s) => no_nl(s),
        None => true,
    }) {
        Err(FormatError::RequestId)
    } else if !(forall|i: int| 0 <= i < v.resources.len() ==> uri_ok(#[trigger] v.resources[i])
        && no_nl(v.resources[i])) {
        Err(FormatError::Resource)
    } else {
        Ok(())
    }
}

/// The format check passes exactly on serializable messages.
pub proof fn lemma_format_check_serializable(v: MsgView)
    ensures
        format_check(v) is Ok <==> serializable(v),
{
}


/// A line made of a fixed tag followed by a value.
fn tagged_line(tag: &str, value: &str) -> (r: Vec<char>)
    ensures
        r@ == tag@ + value@,
{
    let mut v: Vec<char> = Vec::new();
    push_str_chars(&mut v, tag);
    push_str_chars(&mut v, value);
    proof {
        assert(v@ =~= tag@ + value@);
    }
    v
}

/// The value of `line` when it starts with `tag`.
fn strip_tag(line: &Vec<char>, tag: &str) -> (r: Option<Vec<char>>)
    ensures
        match r {
            Some(v) => starts_with(line@, tag@) && v@ == tag_val(line@, tag@),
            None => !starts_with(line@, tag@),
        },
{
    if starts_with_tag(line, tag) {
        let tl: usize = tag.unicode_len();
        let v = sub_chars(line, tl, line.len());
        proof {
            assert(v@ =~= line@.skip(tag@.len() as int));
        }
        Some(v)
    } else {
        None
    }
}

/// Serializes a message to its canonical text, the exact layout that `parse`
/// accepts; the address is rendered checksummed whatever its stored casing.
/// Fails with the first field, in the order of `format_check`, that breaks
/// its invariant.
#[verifier::rlimit(100)]
#[verifier::loop_isolation(false)]
pub fn to_str(message: &Parsed) -> (r: Result<String, FormatError>)
    ensures
        match r {
            Ok(s) => format_check(message@) is Ok && s@ == render(message@),
            Err(e) => format_check(message@) == Err::<(), FormatError>(e),
        },
{
    let dom = str_chars(message.domain.as_str());
    if !check_authority(message.domain.as_str()) || !no_nl_exec(&dom) {
        return Err(FormatError::Domain);
    }
    let addr = str_chars(message.address.as_str());
    let bytes = match decode_addr_line(&addr) {
        Some(b) => b,
        None => {
            return Err(FormatError::Address);
        },
    };
    let stmt: Option<Vec<char>> = match &message.statement {
        Some(st) => {
            let sc = str_chars(st.as_str());
            if sc.len() == 0 || !no_nl_exec(&sc) {
                return Err(FormatError::Statement);
            }
            Some(sc)
        },
        None => None,
    };
    proof {
        assert(stmt.deep_view() == message@.statement);
    }
    let uri = str_chars(message.uri.as_str());
    if !check_uri(message.uri.as_str()) || !no_nl_exec(&uri) {
        return Err(FormatError::Uri);
    }
    let ver = str_chars(message.version.as_str());
    if !(ver.len() == 1) {
        return Err(FormatError::Version);
    }
    if !(ver[0] == '1') {
        proof {
            assert(message@.version != seq!['1']);
        }
        return Err(FormatError::Version);
    }
    proof {
        assert(message@.version =~= seq!['1']);
    }
    let non = str_chars(message.nonce.as_str());
    if non.len() < 8 || !no_nl_exec(&non) {
        return Err(FormatError::Nonce);
    }
    let iat = str_chars(message.issued_at.as_str());
    if parse_rfc3339(message.issued_at.as_str()).is_none() || !no_nl_exec(&iat) {
        return Err(FormatError::Timestamp);
    }
    let exp: Option<Vec<char>> = match &message.expiration_time {
        Some(e) => {
            let ec = str_chars(e.as_str());
            if parse_rfc3339(e.as_str()).is_none() || !no_nl_exec(&ec) {
                return Err(FormatError::Timestamp);
            }
            Some(ec)
        },
        None => None,
    };
    proof {
        assert(exp.deep_view() == message@.expiration_time);
    }
    let nbf: Option<Vec<char>> = match &message.not_before {
        Some(e) => {
            let ec = str_chars(e.as_str());
            if parse_rfc3339(e.as_str()).is_none() || !no_nl_exec(&ec) {
                return Err(FormatError::Timestamp);
            }
            Some(ec)
        },
        None => None,
    };
    proof {
        assert(nbf.deep_view() == message@.not_before);
    }
    let rid: Option<Vec<char>> = match &message.request_id {
        Some(e) => {
            let ec = str_chars(e.as_str());
            if !no_nl_exec(&ec) {
                return Err(FormatError::RequestId);
            }
            Some(ec)
        },
        None => None,
    };
    proof {
        assert(rid.deep_view() == message@.request_id);
    }
    let ghost rdv = message@.resources;
    let mut ri: usize = 0;
    while ri < message.resources.len()
        invariant
            ri <= message.resources.len(),
            rdv == message@.resources,
            rdv.len() == message.resources.len(),
            forall|q: int| 0 <= q < ri ==> uri_ok(#[trigger] rdv[q]) && no_nl(rdv[q]),
        decreases message.resources.len() - ri,
    {
        let rs = &message.resources[ri];
        let rc = str_chars(rs.as_str());
        proof {
            assert(rc@ == rdv[ri as int]);
        }
        if !check_uri(rs.as_str()) || !no_nl_exec(&rc) {
            proof {
                assert(!(uri_ok(rdv[ri as int]) && no_nl(rdv[ri as int])));
                assert(authority_ok(message@.domain) && no_nl(message@.domain));
                assert(addr_hex_ok(message@.address));
                assert(match message@.statement {
                    Some(s) => s.len() > 0 && no_nl(s),
                    None => true,
                });
                assert(uri_ok(message@.uri) && no_nl(message@.uri));
                assert(message@.version == seq!['1']);
                assert(message@.nonce.len() >= 8 && no_nl(message@.nonce));
                assert(rfc3339_ok(message@.issued_at) && no_nl(message@.issued_at));
                assert(match message@.expiration_time {
                    Some(s) => rfc3339_ok(s) && no_nl(s),
                    None => true,
                });
                assert(match message@.not_before {
                    Some(s) => rfc3339_ok(s) && no_nl(s),
                    None => true,
                });
                assert(match message@.request_id {
                    Some(s) => no_nl(s),
                    None => true,
                });
                assert(!(forall|q: int| 0 <= q < message@.resources.len() ==> uri_ok(
                    #[trigger] message@.resources[q],
                ) && no_nl(message@.resources[q])));
                assert(format_check(message@) == Err::<(), FormatError>(FormatError::Resource));
            }
            return Err(FormatError::Resource);
        }
        ri = ri + 1;
    }
    proof {
        assert(format_check(message@) is Ok);
    }
    // Build the lines of the canonical layout.
    let mut lines: Vec<Vec<char>> = Vec::new();
    let mut l0: Vec<char> = Vec::new();
    push_str_chars(&mut l0, message.domain.as_str());
    push_str_chars(&mut l0, " wants you to sign in with your Ethereum account:");
    proof {
        assert(l0@ =~= message@.domain + preamble());
    }
    lines.push(l0);
    let l1 = checksum_address(&bytes);
    lines.push(l1);
    lines.push(Vec::new());
    match stmt {
        Some(sc) => {
            lines.push(sc);
        },
        None => {},
    };
    lines.push(Vec::new());
    lines.push(tagged_line("URI: ", message.uri.as_str()));
    lines.push(tagged_line("Version: ", message.version.as_str()));
    let mut lc: Vec<char> = Vec::new();
    push_str_chars(&mut lc, "Chain ID: ");
    let mut digits = u64_to_dec(message.chain_id);
    lc.append(&mut digits);
    proof {
        assert(lc@ =~= chain_tag() + dec_of(message@.chain_id as nat));
    }
    lines.push(lc);
    lines.push(tagged_line("Nonce: ", message.nonce.as_str()));
    lines.push(tagged_line("Issued At: ", message.issued_at.as_str()));
    match &message.expiration_time {
        Some(e) => {
            lines.push(tagged_line("Expiration Time: ", e.as_str()));
        },
        None => {},
    };
    match &message.not_before {
        Some(e) => {
            lines.push(tagged_line("Not Before: ", e.as_str()));
        },
        None => {},
    };
    match &message.request_id {
        Some(e) => {
            lines.push(tagged_line("Request ID: ", e.as_str()));
        },
        None => {},
    };
    if message.resources.len() > 0 {
        lines.push(str_chars("Resources:"));
        let ghost base = lines.deep_view();
        let ghost bl = rdv.map_values(|x: Seq<char>| bullet() + x);
        let mut ri2: usize = 0;
        while ri2 < message.resources.len()
            invariant
                ri2 <= message.resources.len(),
                rdv == message@.resources,
                rdv.len() == message.resources.len(),
                bl == rdv.map_values(|x: Seq<char>| bullet() + x),
                lines.deep_view() == base + bl.take(ri2 as int),
            decreases message.resources.len() - ri2,
        {
            let rs = &message.resources[ri2];
            let bline = tagged_line("- ", rs.as_str());
            proof {
                assert(bline@ == bullet() + rdv[ri2 as int]);
                assert(bline@ == bl[ri2 as int]);
            }
            let ghost prev = lines.deep_view();
            lines.push(bline);
            proof {
                assert(lines.deep_view() =~~= prev + seq![bl[ri2 as int]]);
                assert(prev + seq![bl[ri2 as int]] =~~= base + bl.take(ri2 + 1 as int));
            }
            ri2 = ri2 + 1;
        }
        proof {
            assert(bl.take(rdv.len() as int) =~= bl);
        }
    }
    proof {
        assert(lines.deep_view() =~~= msg_lines(message@));
    }
    let joined = join_lines_exec(&lines);
    let out = chars_to_string(&joined);
    proof {
        assert(out@ == render(message@));
    }
    Ok(out)
}


/// Parses a canonical text into a structured message. Strict: the layout
/// must match exactly and every field must be valid; the address is stored
/// re-cased to its checksummed rendering.
#[verifier::rlimit(100)]
#[verifier::loop_isolation(false)]
pub fn parse(message: &str) -> (r: Result<Parsed, ParseError>)
    ensures
        match r {
            Ok(p) => parse_text(message@) == Ok::<MsgView, ParseError>(p@),
            Err(e) => parse_text(message@) == Err::<MsgView, ParseError>(e),
        },
{
    let t = str_chars(message);
    let ls = split_lines_exec(&t);
    let ghost dv = ls.deep_view();
    proof {
        assert(dv == split_lines(message@));
        assert forall|w: int| 0 <= w < ls@.len() implies #[trigger] dv[w] == ls@[w]@ by {
            assert(dv[w] =~= ls@[w]@);
        }
    }
    if !ends_with_tag(&ls[0], " wants you to sign in with your Ethereum account:") {
        return Err(ParseError::Layout);
    }
    let plen: usize = " wants you to sign in with your Ethereum account:".unicode_len();
    let l0len: usize = ls[0].len();
    let domain = sub_chars(&ls[0], 0, l0len - plen);
    proof {
        assert(domain@ =~= dv[0].take(dv[0].len() - preamble().len()));
    }
    if ls.len() < 2 {
        return Err(ParseError::Layout);
    }
    let bytes = match decode_addr_line(&ls[1]) {
        Some(b) => b,
        None => {
            return Err(ParseError::Address);
        },
    };
    if ls.len() < 3 {
        return Err(ParseError::Layout);
    }
    if ls[2].len() != 0 {
        return Err(ParseError::Layout);
    }
    if ls.len() < 4 {
        return Err(ParseError::Layout);
    }
    let has_stmt: bool = ls[3].len() != 0;
    let k: usize = if has_stmt {
        5
    } else {
        4
    };
    let stmt: Option<Vec<char>> = if has_stmt {
        if ls.len() < 5 {
            return Err(ParseError::Layout);
        }
        if ls[4].len() != 0 {
            return Err(ParseError::Layout);
        }
        let l3len: usize = ls[3].len();
        Some(sub_chars(&ls[3], 0, l3len))
    } else {
        None
    };
    proof {
        assert(stmt.deep_view() == (if dv[3].len() == 0 {
            Option::<Seq<char>>::None
        } else {
            Some(dv[3])
        }));
    }
    if ls.len() <= k {
        return Err(ParseError::Uri);
    }
    let uri = match strip_tag(&ls[k], "URI: ") {
        Some(v) => v,
        None => {
            return Err(ParseError::Uri);
        },
    };
    if ls.len() <= k + 1 {
        return Err(ParseError::Version);
    }
    let ver = match strip_tag(&ls[k + 1], "Version: ") {
        Some(v) => v,
        None => {
            return Err(ParseError::Version);
        },
    };
    if ls.len() <= k + 2 {
        return Err(ParseError::ChainId);
    }
    let chain = match strip_tag(&ls[k + 2], "Chain ID: ") {
        Some(v) => v,
        None => {
            return Err(ParseError::ChainId);
        },
    };
    if ls.len() <= k + 3 {
        return Err(ParseError::Nonce);
    }
    let nonce = match strip_tag(&ls[k + 3], "Nonce: ") {
        Some(v) => v,
        None => {
            return Err(ParseError::Nonce);
        },
    };
    if ls.len() <= k + 4 {
        return Err(ParseError::Timestamp);
    }
    let iatv = match strip_tag(&ls[k + 4], "Issued At: ") {
        Some(v) => v,
        None => {
            return Err(ParseError::Timestamp);
        },
    };
    // Optional tagged lines.
    let mut j: usize = k + 5;
    let ghost j0 = j as int;
    let exp: Option<Vec<char>> = if j < ls.len() {
        match strip_tag(&ls[j], "Expiration Time: ") {
            Some(v) => {
                j = j + 1;
                Some(v)
            },
            None => None,
        }
    } else {
        None
    };
    proof {
        assert(exp.deep_view() == (if j0 < dv.len() && starts_with(dv[j0], exp_tag()) {
            Some(tag_val(dv[j0], exp_tag()))
        } else {
            Option::<Seq<char>>::None
        }));
        assert(j as int == (if exp.deep_view() is Some {
            j0 + 1
        } else {
            j0
        }));
    }
    let ghost j1g = j as int;
    let nbf: Option<Vec<char>> = if j < ls.len() {
        match strip_tag(&ls[j], "Not Before: ") {
            Some(v) => {
                j = j + 1;
                Some(v)
            },
            None => None,
        }
    } else {
        None
    };
    proof {
        assert(nbf.deep_view() == (if j1g < dv.len() && starts_with(dv[j1g], nbf_tag()) {
            Some(tag_val(dv[j1g], nbf_tag()))
        } else {
            Option::<Seq<char>>::None
        }));
        assert(j as int == (if nbf.deep_view() is Some {
            j1g + 1
        } else {
            j1g
        }));
    }
    let ghost j2g = j as int;
    let rid: Option<Vec<char>> = if j < ls.len() {
        match strip_tag(&ls[j], "Request ID: ") {
            Some(v) => {
                j = j + 1;
                Some(v)
            },
            None => None,
        }
    } else {
        None
    };
    proof {
        assert(rid.deep_view() == (if j2g < dv.len() && starts_with(dv[j2g], rid_tag()) {
            Some(tag_val(dv[j2g], rid_tag()))
        } else {
            Option::<Seq<char>>::None
        }));
        assert(j as int == (if rid.deep_view() is Some {
            j2g + 1
        } else {
            j2g
        }));
    }
    let ghost j3g = j as int;
    let mut resources: Vec<Vec<char>> = Vec::new();
    let ghost jr = j as int + 1;
    if j < ls.len() {
        let rl: usize = "Resources:".unicode_len();
        let header_ok: bool = starts_with_tag(&ls[j], "Resources:") && ls[j].len() == rl;
        proof {
            if header_ok {
                assert(dv[j as int].take(res_tag().len() as int) =~= dv[j as int]);
                assert(dv[j as int] == res_tag());
            } else {
                if dv[j as int] == res_tag() {
                    assert(dv[j as int].take(res_tag().len() as int) =~= dv[j as int]);
                    assert(starts_with(dv[j as int], res_tag()));
                    assert(dv[j as int].len() == res_tag().len());
                    assert(false);
                }
                assert(dv[j as int] != res_tag());
            }
        }
        if !header_ok {
            return Err(ParseError::Layout);
        }
        let mut idx: usize = j + 1;
        while idx < ls.len()
            invariant
                j + 1 <= idx <= ls.len(),
                match parse_resources(dv, idx as int) {
                    Ok(rest) => parse_resources(dv, jr) == Ok::<Seq<Seq<char>>, ParseError>(
                        resources.deep_view() + rest,
                    ),
                    Err(e) => parse_resources(dv, jr) == Err::<Seq<Seq<char>>, ParseError>(e),
                },
            decreases ls.len() - idx,
        {
            let rv = match strip_tag(&ls[idx], "- ") {
                Some(v) => v,
                None => {
                    proof {
                        assert(parse_resources(dv, idx as int) == Err::<
                            Seq<Seq<char>>,
                            ParseError,
                        >(ParseError::Resource));
                    }
                    return Err(ParseError::Resource);
                },
            };
            let ghost prev = resources.deep_view();
            resources.push(rv);
            proof {
                assert(resources.deep_view() =~~= prev + seq![tag_val(dv[idx as int], bullet())]);
                assert forall|rest: Seq<Seq<char>>|
                    parse_resources(dv, idx + 1 as int) == Ok::<Seq<Seq<char>>, ParseError>(
                        rest,
                    ) implies (prev + seq![tag_val(dv[idx as int], bullet())]) + rest =~~= prev + (
                seq![tag_val(dv[idx as int], bullet())] + rest) by {}
            }
            idx = idx + 1;
        }
        proof {
            assert(parse_resources(dv, idx as int) == Ok::<Seq<Seq<char>>, ParseError>(
                Seq::<Seq<char>>::empty(),
            ));
            assert(resources.deep_view() + Seq::<Seq<char>>::empty() =~~= resources.deep_view());
            assert(parse_resources(dv, jr) == Ok::<Seq<Seq<char>>, ParseError>(
                resources.deep_view(),
            ));
        }
    }
    proof {
        if j3g >= dv.len() {
            assert(resources.deep_view() =~~= Seq::<Seq<char>>::empty());
        }
        assert forall|w: int| 0 <= w < resources@.len() implies #[trigger] resources.deep_view()[w]
            == resources@[w]@ by {
            assert(resources.deep_view()[w] =~= resources@[w]@);
        }
    }
    let ghost raw = RawMsg {
        domain: domain@,
        address: dv[1],
        statement: stmt.deep_view(),
        uri: uri.deep_view(),
        version: ver.deep_view(),
        chain: chain.deep_view(),
        nonce: nonce.deep_view(),
        issued_at: iatv.deep_view(),
        expiration_time: exp.deep_view(),
        not_before: nbf.deep_view(),
        request_id: rid.deep_view(),
        resources: resources.deep_view(),
    };
    proof {
        assert(uri.deep_view() =~= uri@);
        assert(ver.deep_view() =~= ver@);
        assert(chain.deep_view() =~= chain@);
        assert(nonce.deep_view() =~= nonce@);
        assert(iatv.deep_view() =~= iatv@);
        assert(parse_optionals(dv, k as int + 5) == Ok::<
            (Option<Seq<char>>, Option<Seq<char>>, Option<Seq<char>>, Seq<Seq<char>>),
            ParseError,
        >((exp.deep_view(), nbf.deep_view(), rid.deep_view(), resources.deep_view())));
        assert(parse_lines(dv) == Ok::<RawMsg, ParseError>(raw));
    }
    // Field validation, in the order of `validate`.
    let domain_s = chars_to_string(&domain);
    if !check_authority(domain_s.as_str()) {
        return Err(ParseError::Domain);
    }
    if !(ver.len() == 1 && ver[0] == '1') {
        proof {
            assert(raw.version != seq!['1']);
        }
        return Err(ParseError::Version);
    }
    proof {
        assert(raw.version =~= seq!['1']);
    }
    let chain_id: u64 = match parse_u64_dec(&chain) {
        Some(v) => v,
        None => {
            return Err(ParseError::ChainId);
        },
    };
    if nonce.len() < 8 {
        return Err(ParseError::Nonce);
    }
    let uri_s = chars_to_string(&uri);
    if !check_uri(uri_s.as_str()) {
        return Err(ParseError::Uri);
    }
    let iat_s = chars_to_string(&iatv);
    if parse_rfc3339(iat_s.as_str()).is_none() {
        return Err(ParseError::Timestamp);
    }
    let exp_s: Option<String> = match &exp {
        Some(e) => {
            let es = chars_to_string(e);
            if parse_rfc3339(es.as_str()).is_none() {
                return Err(ParseError::Timestamp);
            }
            Some(es)
        },
        None => None,
    };
    let nbf_s: Option<String> = match &nbf {
        Some(e) => {
            let es = chars_to_string(e);
            if parse_rfc3339(es.as_str()).is_none() {
                return Err(ParseError::Timestamp);
            }
            Some(es)
        },
        None => None,
    };
    let rid_s: Option<String> = match &rid {
        Some(e) => Some(chars_to_string(e)),
        None => None,
    };
    let mut res_s: Vec<String> = Vec::new();
    let mut q: usize = 0;
    while q < resources.len()
        invariant
            q <= resources.len(),
            res_s.deep_view() == raw.resources.take(q as int),
            forall|w: int| 0 <= w < q ==> uri_ok(#[trigger] raw.resources[w]),
        decreases resources.len() - q,
    {
        let rq = &resources[q];
        let rs = chars_to_string(rq);
        proof {
            assert(rs@ == resources@[q as int]@);
            assert(rs@ == raw.resources[q as int]);
        }
        if !check_uri(rs.as_str()) {
            proof {
                assert(!uri_ok(raw.resources[q as int]));
                assert(!(forall|w: int| 0 <= w < raw.resources.len() ==> uri_ok(
                    #[trigger] raw.resources[w],
                )));
            }
            return Err(ParseError::Resource);
        }
        let ghost prevs = res_s.deep_view();
        res_s.push(rs);
        proof {
            assert(res_s.deep_view() =~~= prevs.push(raw.resources[q as int]));
            assert(prevs.push(raw.resources[q as int]) =~~= raw.resources.take(q + 1 as int));
        }
        q = q + 1;
    }
    proof {
        assert(raw.resources.take(resources.len() as int) =~~= raw.resources);
    }
    let cs = checksum_address(&bytes);
    let stmt_s: Option<String> = match &stmt {
        Some(v) => Some(chars_to_string(v)),
        None => None,
    };
    let p = Parsed {
        domain: domain_s,
        address: chars_to_string(&cs),
        statement: stmt_s,
        uri: uri_s,
        version: chars_to_string(&ver),
        chain_id,
        nonce: chars_to_string(&nonce),
        issued_at: iat_s,
        expiration_time: exp_s,
        not_before: nbf_s,
        request_id: rid_s,
        resources: res_s,
    };
    proof {
        let v = validate(raw);
        assert(v is Ok);
        assert(p@.address == eip55_of(addr_bytes(raw.address)));
        assert(p@.statement == raw.statement);
        assert(p@.expiration_time == raw.expiration_time);
        assert(p@.not_before == raw.not_before);
        assert(p@.request_id == raw.request_id);
        assert(p@.resources =~~= raw.resources);
        assert(p@ == v->Ok_0);
    }
    Ok(p)
}

} // verus!
