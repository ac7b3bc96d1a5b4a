//! The verification engine: domain, nonce and time-window checks, signature
//! recovery, and the freshness-gated parse-then-verify entry point.
//!
//! Everything here decides on explicit instants (`now`, nanoseconds since the
//! Unix epoch). The contract-wallet fallback needs a network round trip, which
//! this library does not perform: when it applies, the engine hands back a
//! `ContractQuery` and the caller reports the chain's answer to the finishing
//! step. A transport failure is reported as `false`, which the engine folds
//! into `BadSignature`.
use vstd::prelude::*;

use crate::address::{addr_bytes, decode_addr_line};
use crate::grammar::{format_check, parse, parse_text, render, to_str, FormatError, ParseError};
use crate::hexnum::{hex_val, is_hex_digit};
use crate::model::{MsgView, Parsed, VerifyOptions};
use crate::text::str_chars;
use crate::validity::{now_unix_nanos, parse_rfc3339, rfc3339_nanos};

verus! {

/// Why a verification attempt was rejected.
#[derive(Clone, Copy, Debug, PartialEq, Eq)]
pub enum VerifyError {
    /// The message breaks a field invariant; its canonical text cannot be
    /// reconstructed, which is an internal inconsistency rather than a
    /// signature failure.
    MessageFormat(FormatError),
    /// An expected domain was set and differs from the message's.
    DomainMismatch,
    /// An expected nonce was set and differs from the message's.
    NonceMismatch,
    /// The message is not yet valid at the given instant.
    NotYetValid,
    /// The message is expired at the given instant.
    Expired,
    /// Neither recovery nor a contract confirmed the signature.
    BadSignature,
    /// The message had gone stale by the time the result was delivered.
    StaleAtDelivery,
}

/// Why the combined parse-and-verify entry point failed.
#[derive(Clone, Copy, Debug, PartialEq, Eq)]
pub enum PivError {
    /// The signature text is not `0x` followed by 130 hexadecimal digits.
    SignatureEncoding,
    /// The message text failed to parse.
    Parse(ParseError),
    /// The message parsed but verification rejected it.
    Verify(VerifyError),
}

/// What the engine asks of the chain collaborator: whether the contract at
/// `address` accepts `signature` over the canonical `message` text.
pub struct ContractQuery {
    pub address: Vec<u8>,
    pub message: String,
    pub signature: Vec<u8>,
}

/// A verification that either finished or awaits the chain's answer.
pub enum VerifyStep {
    Done(Result<(), VerifyError>),
    NeedContract(ContractQuery),
}

/// A combined parse-and-verify that either finished or awaits the chain's
/// answer; the parsed message rides along for the finishing step.
pub enum PivStep {
    Done(Result<Parsed, PivError>),
    NeedContract(ContractQuery, Parsed),
}

/// The address ECDSA recovery yields for a 65-byte signature over the EIP-191
/// hash of a message, or `None` when recovery fails; computed by an outside
/// crate.
pub uninterp spec fn ecrecover_of(msg: Seq<char>, sig: Seq<u8>) -> Option<Seq<u8>>;

/// Relies on `alloy_primitives::Signature::from_raw` and
/// `Signature::recover_address_from_msg`: ECDSA public-key recovery over the
/// EIP-191 hash of the message bytes. The recovered address, or the failure,
/// is a function of message and signature alone, and an address is 20 bytes.
#[verifier::external_body]
fn ecrecover_eip191(msg: &str, sig: &Vec<u8>) -> (r: Option<Vec<u8>>)
    requires
        sig@.len() == 65,
    ensures
        (match r {
            Some(a) => Some(a@),
            None => None::<Seq<u8>>,
        }) == ecrecover_of(msg@, sig@),
        match r {
            Some(a) => a@.len() == 20,
            None => true,
        },
{
    match alloy_primitives::Signature::from_raw(sig.as_slice()) {
        Ok(s) => match s.recover_address_from_msg(msg.as_bytes()) {
            Ok(a) => Some(a.as_slice().to_vec()),
            Err(_) => None,
        },
        Err(_) => None,
    }
}

/// ASCII-case-insensitive equality of two characters.
pub open spec fn char_eq_ic(x: char, y: char) -> bool {
    ||| x == y
    ||| (65 <= (x as u32) && (x as u32) <= 90 && (y as u32) == (x as u32) + 32)
    ||| (65 <= (y as u32) && (y as u32) <= 90 && (x as u32) == (y as u32) + 32)
}

/// ASCII-case-insensitive equality of two strings: how authorities compare.
pub open spec fn ascii_eq_ic(a: Seq<char>, b: Seq<char>) -> bool {
    a.len() == b.len() && (forall|i: int| 0 <= i < a.len() ==> char_eq_ic(#[trigger] a[i], b[i]))
}

/// ASCII-case-insensitive string comparison.
pub fn ascii_eq_ic_exec(a: &str, b: &str) -> (r: bool)
    ensures
        r == ascii_eq_ic(a@, b@),
{
    let av = str_chars(a);
    let bv = str_chars(b);
    if av.len() != bv.len() {
        return false;
    }
    let mut i: usize = 0;
    while i < av.len()
        invariant
            i <= av@.len(),
            av@.len() == bv@.len(),
            av@ == a@,
            bv@ == b@,
            forall|k: int| 0 <= k < i ==> char_eq_ic(#[trigger] av@[k], bv@[k]),
        decreases av@.len() - i,
    {
        let x = av[i];
        let y = bv[i];
        let xu = x as u32;
        let yu = y as u32;
        let same = x == y || (65 <= xu && xu <= 90 && yu == xu + 32) || (65 <= yu && yu <= 90 && xu
            == yu + 32);
        if !same {
            proof {
                assert(!char_eq_ic(a@[i as int], b@[i as int]));
            }
            return false;
        }
        i = i + 1;
    }
    true
}

/// True when the message's time window admits the instant `now`: issued at
/// or before `now`, not before at or before `now`, and `now` strictly before
/// the expiration time (a half-open window). A timestamp that does not parse
/// admits no instant.
pub open spec fn time_pass(v: MsgView, now: int) -> bool {
    &&& match rfc3339_nanos(v.issued_at) {
        Some(t) => t <= now,
        None => false,
    }
    &&& match v.not_before {
        Some(s) => match rfc3339_nanos(s) {
            Some(t) => t <= now,
            None => false,
        },
        None => true,
    }
    &&& match v.expiration_time {
        Some(s) => match rfc3339_nanos(s) {
            Some(t) => now < t,
            None => false,
        },
        None => true,
    }
}

/// The not-yet-valid half of the window: `issued_at` or `not_before` lies
/// after `now`.
pub open spec fn not_yet(v: MsgView, now: int) -> bool {
    ||| match rfc3339_nanos(v.issued_at) {
        Some(t) => t > now,
        None => true,
    }
    ||| match v.not_before {
        Some(s) => match rfc3339_nanos(s) {
            Some(t) => t > now,
            None => true,
        },
        None => false,
    }
}

/// The expired half of the window: the expiration time is at or before `now`.
pub open spec fn expired(v: MsgView, now: int) -> bool {
    match v.expiration_time {
        Some(s) => match rfc3339_nanos(s) {
            Some(t) => t <= now,
            None => true,
        },
        None => false,
    }
}

/// True when the signature recovers exactly the message's address.
pub open spec fn sig_recovers(v: MsgView, sig: Seq<u8>) -> bool {
    sig.len() == 65 && ecrecover_of(render(v), sig) == Some(addr_bytes(v.address))
}

/// The verdict of the pipeline without the contract fallback, at instant
/// `now`: format, then domain, then nonce, then the time window, then
/// signature recovery; the first failure decides.
pub open spec fn offline_verdict(
    v: MsgView,
    sig: Seq<u8>,
    dom: Option<Seq<char>>,
    non: Option<Seq<char>>,
    now: int,
) -> Result<(), VerifyError> {
    match format_check(v) {
        Err(e) => Err(VerifyError::MessageFormat(e)),
        Ok(u) => if (match dom {
            Some(d) => !ascii_eq_ic(d, v.domain),
            None => false,
        }) {
            Err(VerifyError::DomainMismatch)
        } else if (match non {
            Some(n) => n != v.nonce,
            None => false,
        }) {
            Err(VerifyError::NonceMismatch)
        } else if not_yet(v, now) {
            Err(VerifyError::NotYetValid)
        } else if expired(v, now) {
            Err(VerifyError::Expired)
        } else if sig_recovers(v, sig) {
            Ok(())
        } else {
            Err(VerifyError::BadSignature)
        },
    }
}

/// Ties a `VerifyStep` to `offline_verdict`: with an endpoint configured,
/// a signature that fails recovery turns into a chain query; every other
/// outcome is final.
pub open spec fn step_spec(
    r: VerifyStep,
    v: MsgView,
    sig: Seq<u8>,
    dom: Option<Seq<char>>,
    non: Option<Seq<char>>,
    now: int,
    rpc: bool,
) -> bool {
    if rpc && offline_verdict(v, sig, dom, non, now) == Err::<(), VerifyError>(
        VerifyError::BadSignature,
    ) {
        match r {
            VerifyStep::NeedContract(q) => q.message@ == render(v) && q.signature@ == sig
                && q.address@ == addr_bytes(v.address),
            _ => false,
        }
    } else {
        match r {
            VerifyStep::Done(out) => out == offline_verdict(v, sig, dom, non, now),
            _ => false,
        }
    }
}

/// Copies a byte vector.
fn copy_bytes(v: &Vec<u8>) -> (r: Vec<u8>)
    ensures
        r@ == v@,
{
    let mut r: Vec<u8> = Vec::new();
    let mut i: usize = 0;
    while i < v.len()
        invariant
            i <= v@.len(),
            r@ == v@.take(i as int),
        decreases v@.len() - i,
    {
        let b = v[i];
        r.push(b);
        proof {
            assert(v@.take(i + 1 as int) =~= v@.take(i as int).push(v@[i as int]));
        }
        i = i + 1;
    }
    proof {
        assert(v@.take(v@.len() as int) =~= v@);
    }
    r
}

/// Byte-vector equality.
fn bytes_eq(a: &Vec<u8>, b: &Vec<u8>) -> (r: bool)
    ensures
        r == (a@ == b@),
{
    if a.len() != b.len() {
        return false;
    }
    let mut i: usize = 0;
    while i < a.len()
        invariant
            i <= a@.len(),
            a@.len() == b@.len(),
            forall|k: int| 0 <= k < i ==> a@[k] == b@[k],
        decreases a@.len() - i,
    {
        if a[i] != b[i] {
            return false;
        }
        i = i + 1;
    }
    proof {
        assert(a@ =~= b@);
    }
    true
}

/// Runs the verification pipeline at the instant `now`. When the signature
/// does not recover and `rpc` is set, returns the query for the contract
/// check instead of deciding.
#[verifier::rlimit(100)]
#[verifier::loop_isolation(false)]
pub fn verify_at(
    m: &Parsed,
    sig: &Vec<u8>,
    dom: &Option<String>,
    non: &Option<String>,
    now: i128,
    rpc: bool,
) -> (r: VerifyStep)
    ensures
        step_spec(r, m@, sig@, dom.deep_view(), non.deep_view(), now as int, rpc),
{
    let text = match to_str(m) {
        Ok(s) => s,
        Err(e) => {
            return VerifyStep::Done(Err(VerifyError::MessageFormat(e)));
        },
    };
    match dom {
        Some(d) => {
            if !ascii_eq_ic_exec(d.as_str(), m.domain.as_str()) {
                return VerifyStep::Done(Err(VerifyError::DomainMismatch));
            }
        },
        None => {},
    };
    match non {
        Some(n) => {
            if !n.eq(&m.nonce) {
                return VerifyStep::Done(Err(VerifyError::NonceMismatch));
            }
        },
        None => {},
    };
    let iat = match parse_rfc3339(m.issued_at.as_str()) {
        Some(t) => t,
        None => {
            proof {
                assert(false);
            }
            0
        },
    };
    if iat > now {
        return VerifyStep::Done(Err(VerifyError::NotYetValid));
    }
    match &m.not_before {
        Some(s) => {
            let t = match parse_rfc3339(s.as_str()) {
                Some(t) => t,
                None => {
                    proof {
                        assert(false);
                    }
                    0
                },
            };
            if t > now {
                return VerifyStep::Done(Err(VerifyError::NotYetValid));
            }
        },
        None => {},
    };
    proof {
        assert(!not_yet(m@, now as int));
    }
    match &m.expiration_time {
        Some(s) => {
            let t = match parse_rfc3339(s.as_str()) {
                Some(t) => t,
                None => {
                    proof {
                        assert(false);
                    }
                    0
                },
            };
            if t <= now {
                return VerifyStep::Done(Err(VerifyError::Expired));
            }
        },
        None => {},
    };
    proof {
        assert(!expired(m@, now as int));
    }
    let addr_chars = str_chars(m.address.as_str());
    let addr = match decode_addr_line(&addr_chars) {
        Some(b) => b,
        None => {
            proof {
                assert(false);
            }
            Vec::new()
        },
    };
    let recovered_ok: bool = if sig.len() == 65 {
        match ecrecover_eip191(text.as_str(), sig) {
            Some(a) => bytes_eq(&a, &addr),
            None => false,
        }
    } else {
        false
    };
    proof {
        assert(recovered_ok == sig_recovers(m@, sig@));
    }
    if recovered_ok {
        return VerifyStep::Done(Ok(()));
    }
    if rpc {
        let q = ContractQuery { address: addr, message: text, signature: copy_bytes(sig) };
        return VerifyStep::NeedContract(q);
    }
    VerifyStep::Done(Err(VerifyError::BadSignature))
}

/// Folds the chain's answer into an outcome: a confirmed signature accepts;
/// anything else, a transport failure reported as `false` included, is
/// `BadSignature`.
pub fn verify_finish(contract_valid: bool) -> (r: Result<(), VerifyError>)
    ensures
        r == (if contract_valid {
            Ok::<(), VerifyError>(())
        } else {
            Err::<(), VerifyError>(VerifyError::BadSignature)
        }),
{
    if contract_valid {
        Ok(())
    } else {
        Err(VerifyError::BadSignature)
    }
}

/// The instant verification runs at: the parsed `timestamp` override when it
/// is present and well-formed, else the wall clock. A present but malformed
/// override falls back to the wall clock, deliberately mirroring the
/// tolerant reading of the options bag.
pub fn resolve_now(timestamp: &Option<String>) -> (r: i128)
    ensures
        match timestamp.deep_view() {
            Some(s) => match rfc3339_nanos(s) {
                Some(t) => r as int == t,
                None => true,
            },
            None => true,
        },
{
    match timestamp {
        Some(s) => match parse_rfc3339(s.as_str()) {
            Some(t) => t,
            None => now_unix_nanos(),
        },
        None => now_unix_nanos(),
    }
}

/// Runs the pipeline with the options bag: the instant comes from the
/// `timestamp` override when it parses, else the wall clock; the contract
/// fallback is enabled exactly when an endpoint is configured.
pub fn verify(m: &Parsed, sig: &Vec<u8>, opts: &VerifyOptions) -> (r: VerifyStep)
    ensures
        exists|now: int|
            #[trigger] step_spec(
                r,
                m@,
                sig@,
                opts@.domain,
                opts@.nonce,
                now,
                opts@.rpc_url is Some,
            ),
        match opts@.timestamp {
            Some(s) => match rfc3339_nanos(s) {
                Some(t) => step_spec(
                    r,
                    m@,
                    sig@,
                    opts@.domain,
                    opts@.nonce,
                    t as int,
                    opts@.rpc_url is Some,
                ),
                None => true,
            },
            None => true,
        },
{
    let now = resolve_now(&opts.timestamp);
    let rpc = opts.rpc_url.is_some();
    let r = verify_at(m, sig, &opts.domain, &opts.nonce, now, rpc);
    proof {
        assert(step_spec(r, m@, sig@, opts@.domain, opts@.nonce, now as int, rpc));
    }
    r
}


/// True when `s` is a whole signature text: `0x` and 130 hexadecimal digits.
pub open spec fn sig_hex_ok(s: Seq<char>) -> bool {
    s.len() == 132 && s[0] == '0' && s[1] == 'x' && (forall|i: int|
        2 <= i < 132 ==> is_hex_digit(#[trigger] s[i]))
}

/// The 65 bytes denoted by a signature text.
pub open spec fn sig_hex_bytes(s: Seq<char>) -> Seq<u8> {
    Seq::new(65, |i: int| (hex_val(s[2 + 2 * i]) * 16 + hex_val(s[3 + 2 * i])) as u8)
}

/// Decodes a signature text to its 65 bytes; `None` exactly when the text is
/// not `0x` followed by 130 hexadecimal digits.
fn decode_sig_hex(s: &str) -> (r: Option<Vec<u8>>)
    ensures
        match r {
            Some(b) => sig_hex_ok(s@) && b@ == sig_hex_bytes(s@) && b@.len() == 65,
            None => !sig_hex_ok(s@),
        },
{
    let v = str_chars(s);
    if v.len() != 132 {
        return None;
    }
    if v[0] != '0' || v[1] != 'x' {
        return None;
    }
    let mut out: Vec<u8> = Vec::new();
    let mut i: usize = 0;
    while i < 65
        invariant
            i <= 65,
            v@ == s@,
            v@.len() == 132,
            v@[0] == '0',
            v@[1] == 'x',
            out@.len() == i,
            forall|k: int| 2 <= k < 2 + 2 * i ==> is_hex_digit(#[trigger] v@[k]),
            forall|j: int| 0 <= j < i ==> #[trigger] out@[j] == (hex_val(v@[2 + 2 * j]) * 16
                + hex_val(v@[3 + 2 * j])) as u8,
        decreases 65 - i,
    {
        let c1 = v[2 + 2 * i];
        let c2 = v[3 + 2 * i];
        let v1 = match crate::address::hex_val_exec(c1) {
            Some(x) => x,
            None => {
                return None;
            },
        };
        let v2 = match crate::address::hex_val_exec(c2) {
            Some(x) => x,
            None => {
                return None;
            },
        };
        out.push(v1 * 16 + v2);
        i = i + 1;
    }
    proof {
        assert(sig_hex_ok(s@));
        assert(out@ =~= sig_hex_bytes(s@));
    }
    Some(out)
}

/// True when the message's window admits `now`.
pub fn time_pass_exec(m: &Parsed, now: i128) -> (r: bool)
    ensures
        r == time_pass(m@, now as int),
{
    let iat_ok: bool = match parse_rfc3339(m.issued_at.as_str()) {
        Some(t) => t <= now,
        None => false,
    };
    let nbf_ok: bool = match &m.not_before {
        Some(s) => match parse_rfc3339(s.as_str()) {
            Some(t) => t <= now,
            None => false,
        },
        None => true,
    };
    let exp_ok: bool = match &m.expiration_time {
        Some(s) => match parse_rfc3339(s.as_str()) {
            Some(t) => now < t,
            None => false,
        },
        None => true,
    };
    iat_ok && nbf_ok && exp_ok
}

/// The verdict of the combined offline pipeline: signature decoding, parse,
/// verification at `now1`, and the freshness gate re-checked at `now2`.
pub open spec fn piv_verdict(
    t: Seq<char>,
    sh: Seq<char>,
    dom: Option<Seq<char>>,
    non: Option<Seq<char>>,
    now1: int,
    now2: int,
) -> Result<MsgView, PivError> {
    if !sig_hex_ok(sh) {
        Err(PivError::SignatureEncoding)
    } else {
        match parse_text(t) {
            Err(e) => Err(PivError::Parse(e)),
            Ok(v) => match offline_verdict(v, sig_hex_bytes(sh), dom, non, now1) {
                Err(e) => Err(PivError::Verify(e)),
                Ok(u) => if !time_pass(v, now2) {
                    Err(PivError::Verify(VerifyError::StaleAtDelivery))
                } else {
                    Ok(v)
                },
            },
        }
    }
}

/// Ties a `PivStep` to `piv_verdict`: with an endpoint configured, a parsed
/// message whose signature fails recovery turns into a chain query; every
/// other outcome is final.
pub open spec fn piv_step_spec(
    r: PivStep,
    t: Seq<char>,
    sh: Seq<char>,
    dom: Option<Seq<char>>,
    non: Option<Seq<char>>,
    now1: int,
    now2: int,
    rpc: bool,
) -> bool {
    if rpc && sig_hex_ok(sh) && parse_text(t) is Ok && offline_verdict(
        parse_text(t)->Ok_0,
        sig_hex_bytes(sh),
        dom,
        non,
        now1,
    ) == Err::<(), VerifyError>(VerifyError::BadSignature) {
        match r {
            PivStep::NeedContract(q, p) => p@ == parse_text(t)->Ok_0 && q.message@ == render(p@)
                && q.signature@ == sig_hex_bytes(sh) && q.address@ == addr_bytes(p@.address),
            _ => false,
        }
    } else {
        match r {
            PivStep::Done(out) => match out {
                Ok(p) => piv_verdict(t, sh, dom, non, now1, now2) == Ok::<MsgView, PivError>(p@),
                Err(e) => piv_verdict(t, sh, dom, non, now1, now2) == Err::<MsgView, PivError>(e),
            },
            _ => false,
        }
    }
}

/// Parses, verifies at `now1`, and re-checks freshness at `now2`. When the
/// signature does not recover and `rpc` is set, returns the contract query
/// and the parsed message for `parse_if_valid_finish`.
pub fn parse_if_valid_at(
    message: &str,
    sig_hex: &str,
    dom: &Option<String>,
    non: &Option<String>,
    now1: i128,
    now2: i128,
    rpc: bool,
) -> (r: PivStep)
    ensures
        piv_step_spec(
            r,
            message@,
            sig_hex@,
            dom.deep_view(),
            non.deep_view(),
            now1 as int,
            now2 as int,
            rpc,
        ),
{
    let sig = match decode_sig_hex(sig_hex) {
        Some(b) => b,
        None => {
            return PivStep::Done(Err(PivError::SignatureEncoding));
        },
    };
    let p = match parse(message) {
        Ok(p) => p,
        Err(e) => {
            return PivStep::Done(Err(PivError::Parse(e)));
        },
    };
    let step = verify_at(&p, &sig, dom, non, now1, rpc);
    match step {
        VerifyStep::NeedContract(q) => PivStep::NeedContract(q, p),
        VerifyStep::Done(out) => match out {
            Err(e) => PivStep::Done(Err(PivError::Verify(e))),
            Ok(u) => {
                if time_pass_exec(&p, now2) {
                    PivStep::Done(Ok(p))
                } else {
                    PivStep::Done(Err(PivError::Verify(VerifyError::StaleAtDelivery)))
                }
            },
        },
    }
}

/// Folds the chain's answer into the combined pipeline and re-checks
/// freshness at `now2`: an unconfirmed signature is `BadSignature`; a
/// confirmed one still fails as `StaleAtDelivery` when the window has closed.
pub fn parse_if_valid_finish(m: Parsed, contract_valid: bool, now2: i128) -> (r: Result<
    Parsed,
    PivError,
>)
    ensures
        match r {
            Ok(p) => contract_valid && time_pass(m@, now2 as int) && p@ == m@,
            Err(e) => if !contract_valid {
                e == PivError::Verify(VerifyError::BadSignature)
            } else {
                !time_pass(m@, now2 as int) && e == PivError::Verify(VerifyError::StaleAtDelivery)
            },
        },
{
    if !contract_valid {
        return Err(PivError::Verify(VerifyError::BadSignature));
    }
    if time_pass_exec(&m, now2) {
        Ok(m)
    } else {
        Err(PivError::Verify(VerifyError::StaleAtDelivery))
    }
}

/// The combined entry point with the options bag: verification runs at the
/// `timestamp` override when it parses, else at the wall clock; the
/// freshness gate always runs at the wall clock, read after verification.
pub fn parse_if_valid(message: &str, sig_hex: &str, opts: &VerifyOptions) -> (r: PivStep)
    ensures
        exists|now1: int, now2: int|
            #[trigger] piv_step_spec(
                r,
                message@,
                sig_hex@,
                opts@.domain,
                opts@.nonce,
                now1,
                now2,
                opts@.rpc_url is Some,
            ),
{
    let now1 = resolve_now(&opts.timestamp);
    let rpc = opts.rpc_url.is_some();
    let now2 = now_unix_nanos();
    let r = parse_if_valid_at(message, sig_hex, &opts.domain, &opts.nonce, now1, now2, rpc);
    proof {
        assert(piv_step_spec(
            r,
            message@,
            sig_hex@,
            opts@.domain,
            opts@.nonce,
            now1 as int,
            now2 as int,
            rpc,
        ));
    }
    r
}


/// Domain gating: when an expected domain is set and differs from the
/// message's (under authority comparison), verification rejects with
/// `DomainMismatch`, whatever the signature is.
pub proof fn lemma_domain_gating(
    v: MsgView,
    sig: Seq<u8>,
    d: Seq<char>,
    non: Option<Seq<char>>,
    now: int,
)
    requires
        format_check(v) is Ok,
        !ascii_eq_ic(d, v.domain),
    ensures
        offline_verdict(v, sig, Some(d), non, now) == Err::<(), VerifyError>(
            VerifyError::DomainMismatch,
        ),
{
}

/// Time-window boundary: a message issued at `t` that expires at `t` plus
/// sixty seconds, with no other gate in the way, is accepted one nanosecond
/// up to the last instant before the expiry and rejected as `Expired` at the
/// expiry itself: the window is half-open.
pub proof fn lemma_time_window(v: MsgView, sig: Seq<u8>, t: int, e: Seq<char>)
    requires
        format_check(v) is Ok,
        sig_recovers(v, sig),
        (rfc3339_nanos(v.issued_at) matches Some(x) && x as int == t),
        v.not_before is None,
        v.expiration_time == Some(e),
        (rfc3339_nanos(e) matches Some(y) && y as int == t + 60_000_000_000),
    ensures
        offline_verdict(
            v,
            sig,
            Option::<Seq<char>>::None,
            Option::<Seq<char>>::None,
            t + 59_000_000_000,
        ) == Ok::<(), VerifyError>(()),
        offline_verdict(
            v,
            sig,
            Option::<Seq<char>>::None,
            Option::<Seq<char>>::None,
            t + 60_000_000_000,
        ) == Err::<(), VerifyError>(VerifyError::Expired),
{
}

/// Freshness gate: a message that parses and verifies at `now1` but whose
/// window no longer admits `now2` is rejected as `StaleAtDelivery`, even
/// though every step of verification succeeded.
pub proof fn lemma_freshness_gate(
    t: Seq<char>,
    sh: Seq<char>,
    dom: Option<Seq<char>>,
    non: Option<Seq<char>>,
    now1: int,
    now2: int,
)
    requires
        sig_hex_ok(sh),
        parse_text(t) is Ok,
        offline_verdict(parse_text(t)->Ok_0, sig_hex_bytes(sh), dom, non, now1) is Ok,
        !time_pass(parse_text(t)->Ok_0, now2),
    ensures
        piv_verdict(t, sh, dom, non, now1, now2) == Err::<MsgView, PivError>(
            PivError::Verify(VerifyError::StaleAtDelivery),
        ),
{
}

} // verus!
