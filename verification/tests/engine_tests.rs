use k256::ecdsa::SigningKey;
use siwe_native::engine::{
    parse_if_valid_at, verify, verify_at, PivError, PivStep, VerifyError, VerifyStep,
};
use siwe_native::grammar::{parse, to_str};
use siwe_native::model::{Parsed, VerifyOptions};
use siwe_native::nonce::generate_nonce;
use std::collections::HashSet;

fn nanos_of(ts: &str) -> i128 {
    time::OffsetDateTime::parse(ts, &time::format_description::well_known::Rfc3339)
        .unwrap()
        .unix_timestamp_nanos()
}

/// A deterministic test key, its address (lower-case hex), and a signer over
/// canonical texts.
fn test_key() -> (SigningKey, String) {
    let sk = SigningKey::from_slice(&[7u8; 32]).unwrap();
    let vk = sk.verifying_key();
    let uncompressed = vk.to_encoded_point(false);
    let hash = alloy_primitives::keccak256(&uncompressed.as_bytes()[1..]);
    let mut addr = String::from("0x");
    for b in &hash[12..] {
        addr.push_str(&format!("{:02x}", b));
    }
    (sk, addr)
}

fn sign_text(sk: &SigningKey, text: &str) -> Vec<u8> {
    let hash = alloy_primitives::eip191_hash_message(text.as_bytes());
    let (sig, recid) = sk.sign_prehash_recoverable(hash.as_slice()).unwrap();
    let mut out = sig.to_bytes().to_vec();
    out.push(27 + recid.to_byte());
    out
}

fn timed_message(addr: &str) -> Parsed {
    Parsed {
        domain: "example.com".to_string(),
        address: addr.to_string(),
        statement: Some("Sign in to Example".to_string()),
        uri: "https://example.com/login".to_string(),
        version: "1".to_string(),
        chain_id: 1,
        nonce: "abcd1234".to_string(),
        issued_at: "2021-12-07T18:28:18Z".to_string(),
        expiration_time: Some("2021-12-07T18:29:18Z".to_string()),
        not_before: None,
        request_id: None,
        resources: Vec::new(),
    }
}

#[test]
fn time_window_is_half_open() {
    let (sk, addr) = test_key();
    let m = timed_message(&addr);
    let text = to_str(&m).unwrap();
    let sig = sign_text(&sk, &text);
    let t = nanos_of("2021-12-07T18:28:18Z");
    let sec: i128 = 1_000_000_000;

    // Accepted one second before expiry.
    let r = verify_at(&m, &sig, &None, &None, t + 59 * sec, false);
    assert!(matches!(r, VerifyStep::Done(Ok(()))));
    // Rejected as Expired at exactly issued_at + 60 s.
    let r = verify_at(&m, &sig, &None, &None, t + 60 * sec, false);
    assert!(matches!(r, VerifyStep::Done(Err(VerifyError::Expired))));
    // Not yet valid before issuance.
    let r = verify_at(&m, &sig, &None, &None, t - sec, false);
    assert!(matches!(r, VerifyStep::Done(Err(VerifyError::NotYetValid))));
}

#[test]
fn freshness_gate_rejects_stale_delivery() {
    let (sk, addr) = test_key();
    let m = timed_message(&addr);
    let text = to_str(&m).unwrap();
    let sig = sign_text(&sk, &text);
    let mut sig_hex = String::from("0x");
    for b in &sig {
        sig_hex.push_str(&format!("{:02x}", b));
    }
    let t = nanos_of("2021-12-07T18:28:18Z");
    let sec: i128 = 1_000_000_000;

    // Verification passes at now1, but the clock has advanced past the
    // expiry by the time the second check runs: StaleAtDelivery.
    let r = parse_if_valid_at(&text, &sig_hex, &None, &None, t + 10 * sec, t + 61 * sec, false);
    assert!(matches!(
        r,
        PivStep::Done(Err(PivError::Verify(VerifyError::StaleAtDelivery)))
    ));
    // With both instants inside the window the message comes back.
    let r = parse_if_valid_at(&text, &sig_hex, &None, &None, t + 10 * sec, t + 11 * sec, false);
    match r {
        PivStep::Done(Ok(p)) => assert_eq!(p.nonce, "abcd1234"),
        _ => panic!("expected acceptance"),
    }
}

#[test]
fn contract_fallback_is_requested_only_with_an_endpoint() {
    let (_, addr) = test_key();
    let m = timed_message(&addr);
    let text = to_str(&m).unwrap();
    let bad_sig = vec![0x11u8; 65];
    let t = nanos_of("2021-12-07T18:28:18Z");

    let r = verify_at(&m, &bad_sig, &None, &None, t, false);
    assert!(matches!(r, VerifyStep::Done(Err(VerifyError::BadSignature))));

    let r = verify_at(&m, &bad_sig, &None, &None, t, true);
    match r {
        VerifyStep::NeedContract(q) => {
            assert_eq!(q.message, text);
            assert_eq!(q.signature, bad_sig);
            assert_eq!(q.address.len(), 20);
        }
        _ => panic!("expected a contract query"),
    }
}

#[test]
fn serialized_address_is_checksummed_from_lowercase() {
    let (_, addr) = test_key();
    let m = timed_message(&addr);
    let text = to_str(&m).unwrap();
    let p = parse(&text).unwrap();
    // The stored form is checksummed: equal to the lower-case input only up
    // to casing, and parsing is stable under re-serialization.
    assert_eq!(p.address.to_lowercase(), addr.to_lowercase());
    assert_eq!(to_str(&p).unwrap(), text);
}

#[test]
fn generated_nonces_are_distinct() {
    let mut seen: HashSet<String> = HashSet::new();
    for _ in 0..10_000 {
        let n = generate_nonce();
        assert!(n.len() >= 8);
        assert!(n.chars().all(|c| c.is_ascii_alphanumeric()));
        assert!(seen.insert(n), "a nonce repeated");
    }
    assert_eq!(seen.len(), 10_000);
}

#[test]
fn options_timestamp_overrides_the_clock() {
    let (sk, addr) = test_key();
    let m = timed_message(&addr);
    let text = to_str(&m).unwrap();
    let sig = sign_text(&sk, &text);

    let inside = VerifyOptions {
        domain: Some("EXAMPLE.com".to_string()),
        nonce: Some("abcd1234".to_string()),
        timestamp: Some("2021-12-07T18:28:30Z".to_string()),
        rpc_url: None,
    };
    assert!(matches!(verify(&m, &sig, &inside), VerifyStep::Done(Ok(()))));

    let outside = VerifyOptions {
        domain: None,
        nonce: None,
        timestamp: Some("2021-12-07T18:30:00Z".to_string()),
        rpc_url: None,
    };
    assert!(matches!(
        verify(&m, &sig, &outside),
        VerifyStep::Done(Err(VerifyError::Expired))
    ));
}
