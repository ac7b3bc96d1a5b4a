use siwe_native::engine::{
    parse_if_valid_at, verify_at, PivError, PivStep, VerifyError, VerifyStep,
};
use siwe_native::grammar::{parse, to_str, FormatError, ParseError};
use siwe_native::model::Parsed;

fn vector_text() -> String {
    [
        "localhost:4361 wants you to sign in with your Ethereum account:",
        "0x6Da01670d8fc844e736095918bbE11fE8D564163",
        "",
        "SIWE Notepad Example",
        "",
        "URI: http://localhost:4361",
        "Version: 1",
        "Chain ID: 1",
        "Nonce: kEWepMt9knR6lWJ6A",
        "Issued At: 2021-12-07T18:28:18.807Z",
    ]
    .join("\n")
}

#[test]
fn parse_canonical_vector() {
    let p = parse(&vector_text()).expect("canonical vector parses");
    assert_eq!(p.domain, "localhost:4361");
    assert_eq!(p.address, "0x6Da01670d8fc844e736095918bbE11fE8D564163");
    assert_eq!(p.statement.as_deref(), Some("SIWE Notepad Example"));
    assert_eq!(p.uri, "http://localhost:4361");
    assert_eq!(p.version, "1");
    assert_eq!(p.chain_id, 1);
    assert_eq!(p.nonce, "kEWepMt9knR6lWJ6A");
    assert_eq!(p.issued_at, "2021-12-07T18:28:18.807Z");
    assert_eq!(p.expiration_time, None);
    assert_eq!(p.not_before, None);
    assert_eq!(p.request_id, None);
    assert!(p.resources.is_empty());
}

#[test]
fn round_trip_is_identity_on_canonical_text() {
    let text = vector_text();
    let p = parse(&text).unwrap();
    let s = to_str(&p).expect("parsed message serializes");
    assert_eq!(s, text);
    let p2 = parse(&s).unwrap();
    let s2 = to_str(&p2).unwrap();
    assert_eq!(s2, s);
}

#[test]
fn checksum_normalization_is_casing_blind() {
    let text = vector_text();
    let lower = text.replace(
        "0x6Da01670d8fc844e736095918bbE11fE8D564163",
        "0x6da01670d8fc844e736095918bbe11fe8d564163",
    );
    let upper = text.replace(
        "0x6Da01670d8fc844e736095918bbE11fE8D564163",
        "0x6DA01670D8FC844E736095918BBE11FE8D564163",
    );
    let p1 = parse(&lower).expect("lower-case address accepted");
    let p2 = parse(&upper).expect("upper-case address accepted");
    assert_eq!(p1.address, "0x6Da01670d8fc844e736095918bbE11fE8D564163");
    assert_eq!(p2.address, "0x6Da01670d8fc844e736095918bbE11fE8D564163");
    assert_eq!(to_str(&p1).unwrap(), text);
    assert_eq!(to_str(&p2).unwrap(), text);
}

#[test]
fn round_trip_with_all_optional_fields() {
    let text = [
        "example.com wants you to sign in with your Ethereum account:",
        "0x6Da01670d8fc844e736095918bbE11fE8D564163",
        "",
        "",
        "URI: https://example.com/login",
        "Version: 1",
        "Chain ID: 5",
        "Nonce: 12345678",
        "Issued At: 2021-12-07T18:28:18Z",
        "Expiration Time: 2021-12-07T19:28:18Z",
        "Not Before: 2021-12-07T18:00:00Z",
        "Request ID: order-17",
        "Resources:",
        "- https://example.com/a",
        "- ipfs://bafybeiemxf5abjwjbikoz4mc3a3dla6ual3jsgpdr4cjr3oz3evfyavhwq/",
    ]
    .join("\n");
    let p = parse(&text).expect("full message parses");
    assert_eq!(p.statement, None);
    assert_eq!(p.expiration_time.as_deref(), Some("2021-12-07T19:28:18Z"));
    assert_eq!(p.not_before.as_deref(), Some("2021-12-07T18:00:00Z"));
    assert_eq!(p.request_id.as_deref(), Some("order-17"));
    assert_eq!(p.resources.len(), 2);
    assert_eq!(to_str(&p).unwrap(), text);
}

#[test]
fn parse_rejects_each_malformed_field() {
    let text = vector_text();
    // Wrong preamble wording.
    assert!(matches!(parse(&text.replace("wants you to sign in", "want you to sign in")), Err(ParseError::Layout)));
    // Address of the wrong length.
    assert!(matches!(parse(&text.replace(
            "0x6Da01670d8fc844e736095918bbE11fE8D564163",
            "0x6Da01670d8fc844e736095918bbE11fE8D5641"
        )), Err(ParseError::Address)));
    // Domain that is no authority.
    assert!(matches!(parse(&text.replace("localhost:4361 wants", "local host wants")), Err(ParseError::Domain)));
    // URI that is no URI.
    assert!(matches!(parse(&text.replace("URI: http://localhost:4361", "URI: not a uri")), Err(ParseError::Uri)));
    // Version other than 1.
    assert!(matches!(parse(&text.replace("Version: 1", "Version: 2")), Err(ParseError::Version)));
    // Chain id above u64::MAX.
    assert!(matches!(parse(&text.replace("Chain ID: 1", "Chain ID: 99999999999999999999999")), Err(ParseError::ChainId)));
    // Chain id with a sign.
    assert!(matches!(parse(&text.replace("Chain ID: 1", "Chain ID: +1")), Err(ParseError::ChainId)));
    // Nonce shorter than eight characters.
    assert!(matches!(parse(&text.replace("Nonce: kEWepMt9knR6lWJ6A", "Nonce: abc1234")), Err(ParseError::Nonce)));
    // Timestamp that is not RFC-3339.
    assert!(matches!(parse(&text.replace(
            "Issued At: 2021-12-07T18:28:18.807Z",
            "Issued At: yesterday"
        )), Err(ParseError::Timestamp)));
    // A resource line without the bullet.
    let with_bad_res = format!("{}\nResources:\nhttps://example.com/a", text);
    assert!(matches!(parse(&with_bad_res), Err(ParseError::Resource)));
    // Trailing garbage after the fixed fields.
    let with_garbage = format!("{}\nSomething else", text);
    assert!(matches!(parse(&with_garbage), Err(ParseError::Layout)));
    // A missing blank line before the statement.
    let squeezed = text.replace("\n\nSIWE Notepad Example", "\nSIWE Notepad Example");
    assert!(matches!(parse(&squeezed), Err(ParseError::Layout)));
}

#[test]
fn serialize_rejects_each_invalid_field() {
    let base = parse(&vector_text()).unwrap();

    let mut m = clone_parsed(&base);
    m.domain = "local host".to_string();
    assert_eq!(to_str(&m), Err(FormatError::Domain));

    let mut m = clone_parsed(&base);
    m.address = "6Da01670d8fc844e736095918bbE11fE8D564163".to_string();
    assert_eq!(to_str(&m), Err(FormatError::Address));

    let mut m = clone_parsed(&base);
    m.statement = Some(String::new());
    assert_eq!(to_str(&m), Err(FormatError::Statement));

    let mut m = clone_parsed(&base);
    m.statement = Some("two\nlines".to_string());
    assert_eq!(to_str(&m), Err(FormatError::Statement));

    let mut m = clone_parsed(&base);
    m.uri = "not a uri".to_string();
    assert_eq!(to_str(&m), Err(FormatError::Uri));

    let mut m = clone_parsed(&base);
    m.version = "2".to_string();
    assert_eq!(to_str(&m), Err(FormatError::Version));

    let mut m = clone_parsed(&base);
    m.nonce = "abc".to_string();
    assert_eq!(to_str(&m), Err(FormatError::Nonce));

    let mut m = clone_parsed(&base);
    m.issued_at = "yesterday".to_string();
    assert_eq!(to_str(&m), Err(FormatError::Timestamp));

    // Strict handling of optional timestamps: a present but malformed
    // expiration is an error, not silently dropped.
    let mut m = clone_parsed(&base);
    m.expiration_time = Some("soon".to_string());
    assert_eq!(to_str(&m), Err(FormatError::Timestamp));

    let mut m = clone_parsed(&base);
    m.request_id = Some("a\nb".to_string());
    assert_eq!(to_str(&m), Err(FormatError::RequestId));

    let mut m = clone_parsed(&base);
    m.resources = vec!["not a uri".to_string()];
    assert_eq!(to_str(&m), Err(FormatError::Resource));
}

fn clone_parsed(p: &Parsed) -> Parsed {
    Parsed {
        domain: p.domain.clone(),
        address: p.address.clone(),
        statement: p.statement.clone(),
        uri: p.uri.clone(),
        version: p.version.clone(),
        chain_id: p.chain_id,
        nonce: p.nonce.clone(),
        issued_at: p.issued_at.clone(),
        expiration_time: p.expiration_time.clone(),
        not_before: p.not_before.clone(),
        request_id: p.request_id.clone(),
        resources: p.resources.clone(),
    }
}

fn hex_to_bytes(s: &str) -> Vec<u8> {
    let cs: Vec<char> = s.chars().collect();
    let mut out = Vec::new();
    let mut i = 0;
    while i + 1 < cs.len() {
        let hi = cs[i].to_digit(16).unwrap() as u8;
        let lo = cs[i + 1].to_digit(16).unwrap() as u8;
        out.push(hi * 16 + lo);
        i += 2;
    }
    out
}

fn nanos_of(ts: &str) -> i128 {
    time::OffsetDateTime::parse(ts, &time::format_description::well_known::Rfc3339)
        .unwrap()
        .unix_timestamp_nanos()
}

const VECTOR_SIG: &str = "6228b3ecd7bf2df018183aeab6b6f1db1e9f4e3cbe24560404112e25363540eb679934908143224d746bbb5e1aa65ab435684081f4dbb74a0fec57f98f40f5051c";

#[test]
fn verify_accepts_the_signed_vector() {
    let p = parse(&vector_text()).unwrap();
    let sig = hex_to_bytes(VECTOR_SIG);
    let now = nanos_of("2021-12-08T00:00:00Z");
    let r = verify_at(
        &p,
        &sig,
        &Some("localhost:4361".to_string()),
        &Some("kEWepMt9knR6lWJ6A".to_string()),
        now,
        false,
    );
    assert!(matches!(r, VerifyStep::Done(Ok(()))));
}

#[test]
fn verify_compares_domains_case_insensitively() {
    let p = parse(&vector_text()).unwrap();
    let sig = hex_to_bytes(VECTOR_SIG);
    let now = nanos_of("2021-12-08T00:00:00Z");
    let r = verify_at(&p, &sig, &Some("LOCALHOST:4361".to_string()), &None, now, false);
    assert!(matches!(r, VerifyStep::Done(Ok(()))));
}

#[test]
fn domain_gating_rejects_regardless_of_signature() {
    let p = parse(&vector_text()).unwrap();
    let now = nanos_of("2021-12-08T00:00:00Z");
    let good = hex_to_bytes(VECTOR_SIG);
    let r = verify_at(&p, &good, &Some("example.com".to_string()), &None, now, false);
    assert!(matches!(r, VerifyStep::Done(Err(VerifyError::DomainMismatch))));
    let garbage = vec![0u8; 65];
    let r = verify_at(&p, &garbage, &Some("example.com".to_string()), &None, now, false);
    assert!(matches!(r, VerifyStep::Done(Err(VerifyError::DomainMismatch))));
}

#[test]
fn nonce_gating_rejects_regardless_of_signature() {
    let p = parse(&vector_text()).unwrap();
    let now = nanos_of("2021-12-08T00:00:00Z");
    let good = hex_to_bytes(VECTOR_SIG);
    let r = verify_at(&p, &good, &None, &Some("otherNonce123".to_string()), now, false);
    assert!(matches!(r, VerifyStep::Done(Err(VerifyError::NonceMismatch))));
}

#[test]
fn tampering_with_any_signature_bit_rejects() {
    let p = parse(&vector_text()).unwrap();
    let sig = hex_to_bytes(VECTOR_SIG);
    let now = nanos_of("2021-12-08T00:00:00Z");
    assert!(matches!(
        verify_at(&p, &sig, &None, &None, now, false),
        VerifyStep::Done(Ok(()))
    ));
    // Every bit of r and s is load-bearing.
    for byte in 0..64 {
        for bit in 0..8 {
            let mut bad = sig.clone();
            bad[byte] ^= 1u8 << bit;
            let r = verify_at(&p, &bad, &None, &None, now, false);
            assert!(
                matches!(r, VerifyStep::Done(Err(VerifyError::BadSignature))),
                "flipping bit {} of byte {} must reject",
                bit,
                byte
            );
        }
    }
    // The recovery byte: the other parity recovers a different address, and
    // values outside the accepted encodings fail outright. (Some bit flips
    // of this byte alias to the same parity under EIP-155-style encodings,
    // so they are not tampering at all.)
    for v in [27u8, 29, 30] {
        let mut bad = sig.clone();
        bad[64] = v;
        let r = verify_at(&p, &bad, &None, &None, now, false);
        assert!(
            matches!(r, VerifyStep::Done(Err(VerifyError::BadSignature))),
            "recovery byte {} must reject",
            v
        );
    }
}

#[test]
fn signature_of_wrong_length_rejects() {
    let p = parse(&vector_text()).unwrap();
    let now = nanos_of("2021-12-08T00:00:00Z");
    let short = vec![1u8; 64];
    let r = verify_at(&p, &short, &None, &None, now, false);
    assert!(matches!(r, VerifyStep::Done(Err(VerifyError::BadSignature))));
}

#[test]
fn parse_if_valid_rejects_malformed_signature_text() {
    let sig_hex = format!("0x{}", &VECTOR_SIG[..128]);
    let now = nanos_of("2021-12-08T00:00:00Z");
    let r = parse_if_valid_at(&vector_text(), &sig_hex, &None, &None, now, now, false);
    assert!(matches!(
        r,
        PivStep::Done(Err(PivError::SignatureEncoding))
    ));
}

#[test]
fn parse_if_valid_accepts_and_returns_the_message() {
    let sig_hex = format!("0x{}", VECTOR_SIG);
    let now = nanos_of("2021-12-08T00:00:00Z");
    let r = parse_if_valid_at(&vector_text(), &sig_hex, &None, &None, now, now, false);
    match r {
        PivStep::Done(Ok(p)) => assert_eq!(p.domain, "localhost:4361"),
        _ => panic!("expected success"),
    }
}
