use fetchurl_sdk::session::{is_arrangement_of, shuffled_order};
use fetchurl_sdk::{parse_sfv_string_list, to_hex, Error, FetchSession, HashVerifier};
use sha2::Digest;

fn sha256_hex(data: &[u8]) -> String {
    to_hex(&sha2::Sha256::digest(data))
}

fn strings(items: &[&str]) -> Vec<String> {
    items.iter().map(|s| s.to_string()).collect()
}

fn write_all(verifier: &mut HashVerifier<&mut Vec<u8>>, data: &[u8]) {
    verifier.sink_mut().extend_from_slice(data);
    verifier.record_written(data, data.len());
}

#[test]
fn test_hash_verifier_success() {
    let data = b"hello world";
    let hash = sha256_hex(data);

    let mut output = Vec::new();
    {
        let mut verifier = HashVerifier::new("sha256", &hash, &mut output);
        write_all(&mut verifier, data);
        assert_eq!(verifier.bytes_written(), data.len() as u64);
        verifier.finish().unwrap();
    }
    assert_eq!(output, data);
}

#[test]
fn test_hash_verifier_mismatch() {
    let data = b"hello world";
    let wrong_hash = sha256_hex(b"wrong");

    let mut output = Vec::new();
    let mut verifier = HashVerifier::new("sha256", &wrong_hash, &mut output);
    write_all(&mut verifier, data);
    let err = verifier.finish().unwrap_err();
    assert!(matches!(err, Error::HashMismatch { .. }));
}

#[test]
fn test_session_unsupported_algo() {
    let err = FetchSession::new("md5", "abc", &strings(&["http://src"]), &[]);
    assert!(matches!(err, Err(Error::UnsupportedAlgorithm(_))));
}

#[test]
fn test_session_attempt_ordering() {
    let hash = sha256_hex(b"test");
    let servers = parse_sfv_string_list("\"http://cache1\", \"http://cache2\"");
    let mut session =
        FetchSession::new("sha256", &hash, &strings(&["http://src1"]), &servers).unwrap();

    let a1 = session.next_attempt().unwrap();
    assert!(a1.url().starts_with("http://cache1/api/fetchurl/sha256/"));
    assert!(!a1.headers().is_empty());

    let a2 = session.next_attempt().unwrap();
    assert!(a2.url().starts_with("http://cache2/api/fetchurl/sha256/"));

    let a3 = session.next_attempt().unwrap();
    assert_eq!(a3.url(), "http://src1");
    assert!(a3.headers().is_empty());

    assert!(session.next_attempt().is_none());
    assert!(!session.succeeded());
}

#[test]
fn test_session_success_stops() {
    let hash = sha256_hex(b"test");
    let servers = parse_sfv_string_list("\"http://cache\"");
    let mut session =
        FetchSession::new("sha256", &hash, &strings(&["http://src"]), &servers).unwrap();

    let _ = session.next_attempt().unwrap();
    session.report_success();
    assert!(session.succeeded());
    assert!(session.next_attempt().is_none());
}

#[test]
fn test_session_partial_stops() {
    let hash = sha256_hex(b"test");
    let servers = parse_sfv_string_list("\"http://cache\"");
    let mut session =
        FetchSession::new("sha256", &hash, &strings(&["http://src"]), &servers).unwrap();

    let _ = session.next_attempt().unwrap();
    session.report_partial();
    assert!(!session.succeeded());
    assert!(session.next_attempt().is_none());
}

#[test]
fn test_session_server_has_source_header() {
    let hash = sha256_hex(b"test");
    let servers = parse_sfv_string_list("\"http://cache\"");
    let mut session = FetchSession::new(
        "sha256",
        &hash,
        &strings(&["http://src1", "http://src2"]),
        &servers,
    )
    .unwrap();

    let attempt = session.next_attempt().unwrap();
    let source_header = attempt
        .headers()
        .iter()
        .find(|(k, _)| k == "X-Source-Urls")
        .map(|(_, v)| v.clone())
        .unwrap();

    let parsed = parse_sfv_string_list(&source_header);
    assert!(parsed.contains(&"http://src1".to_string()));
    assert!(parsed.contains(&"http://src2".to_string()));
}

#[test]
fn unsupported_algorithm_carries_the_canonical_name() {
    match FetchSession::new("MD-5", "abc", &[], &[]) {
        Err(Error::UnsupportedAlgorithm(name)) => assert_eq!(name, "md5"),
        _ => panic!("an unsupported algorithm was accepted"),
    }
    match FetchSession::with_order("sha-3", "abc", &strings(&["u"]), &[], &[0]) {
        Err(Error::UnsupportedAlgorithm(name)) => assert_eq!(name, "sha3"),
        _ => panic!("an unsupported algorithm was accepted"),
    }
}

#[test]
fn plan_with_given_order_is_exact() {
    let sources = strings(&["http://m0/f", "http://m1/f", "http://m2/\"f\""]);
    let servers = strings(&["http://cache1///", "https://cache2/base/", "", "/"]);
    let mut session =
        FetchSession::with_order("SHA-256", "ABCdef", &sources, &servers, &[2, 0, 1]).unwrap();
    let header = (
        "X-Source-Urls".to_string(),
        "\"http://m0/f\", \"http://m1/f\", \"http://m2/\\\"f\\\"\"".to_string(),
    );
    let expected_servers = [
        "http://cache1/api/fetchurl/sha256/ABCdef",
        "https://cache2/base/api/fetchurl/sha256/ABCdef",
        "/api/fetchurl/sha256/ABCdef",
        "/api/fetchurl/sha256/ABCdef",
    ];
    for url in expected_servers {
        let a = session.next_attempt().unwrap();
        assert_eq!(a.url(), url);
        assert_eq!(a.headers(), &[header.clone()]);
    }
    for url in ["http://m2/\"f\"", "http://m0/f", "http://m1/f"] {
        let a = session.next_attempt().unwrap();
        assert_eq!(a.url(), url);
        assert!(a.headers().is_empty());
    }
    assert!(session.next_attempt().is_none());
    assert!(session.next_attempt().is_none());
    assert!(!session.succeeded());
}

#[test]
fn servers_carry_no_header_without_sources() {
    let servers = strings(&["http://cache"]);
    let mut session = FetchSession::new("sha1", "00", &[], &servers).unwrap();
    let a = session.next_attempt().unwrap();
    assert_eq!(a.url(), "http://cache/api/fetchurl/sha1/00");
    assert!(a.headers().is_empty());
    assert!(session.next_attempt().is_none());
}

#[test]
fn empty_plan_offers_nothing() {
    let mut session = FetchSession::new("sha512", "00", &[], &[]).unwrap();
    assert!(session.next_attempt().is_none());
    assert!(!session.succeeded());
}

#[test]
fn random_plan_holds_every_source_once_after_the_servers() {
    let sources: Vec<String> = (0..40).map(|i| format!("http://mirror{i}/f")).collect();
    let servers = strings(&["http://c1", "http://c2"]);
    let mut session = FetchSession::new("sha256", "aa", &sources, &servers).unwrap();
    assert_eq!(session.next_attempt().unwrap().url(), "http://c1/api/fetchurl/sha256/aa");
    assert_eq!(session.next_attempt().unwrap().url(), "http://c2/api/fetchurl/sha256/aa");
    let mut seen: Vec<String> = Vec::new();
    while let Some(a) = session.next_attempt() {
        assert!(a.headers().is_empty());
        seen.push(a.url().to_string());
    }
    assert_eq!(seen.len(), sources.len());
    seen.sort();
    let mut sorted = sources.clone();
    sorted.sort();
    assert_eq!(seen, sorted);
}

#[test]
fn shuffled_order_is_a_rearrangement() {
    assert!(shuffled_order(0).is_empty());
    assert_eq!(shuffled_order(1), vec![0]);
    let order = shuffled_order(64);
    let rising: Vec<usize> = (0..64).collect();
    assert_ne!(order, rising);
    let mut sorted = order.clone();
    sorted.sort();
    assert_eq!(sorted, rising);
}

#[test]
fn success_ends_the_session_with_attempts_left() {
    let servers = strings(&["http://c1", "http://c2"]);
    let mut session = FetchSession::new("sha256", "aa", &strings(&["http://s"]), &servers).unwrap();
    session.report_success();
    assert!(session.succeeded());
    assert!(session.next_attempt().is_none());
    assert!(session.next_attempt().is_none());
    assert!(session.succeeded());
}

#[test]
fn partial_ends_the_session_with_attempts_left() {
    let servers = strings(&["http://c1", "http://c2"]);
    let mut session = FetchSession::new("sha256", "aa", &strings(&["http://s"]), &servers).unwrap();
    assert!(session.next_attempt().is_some());
    session.report_partial();
    assert!(!session.succeeded());
    assert!(session.next_attempt().is_none());
}

#[test]
fn partial_after_success_keeps_the_success() {
    let mut session = FetchSession::new("sha256", "aa", &strings(&["http://s"]), &[]).unwrap();
    session.report_success();
    session.report_partial();
    assert!(session.succeeded());
    assert!(session.next_attempt().is_none());
}

#[test]
fn digests_of_abc_under_each_algorithm() {
    let cases = [
        ("sha1", "a9993e364706816aba3e25717850c26c9cd0d89d"),
        ("sha256", "ba7816bf8f01cfea414140de5dae2223b00361a396177a9cb410ff61f20015ad"),
        (
            "sha512",
            "ddaf35a193617abacc417349ae20413112e6fa4e89a97ea20a9eeee64b55d39a2192992a274fc1a836ba3c23a3feebbd454d4423643ce80e2a9ac94fa54ca49f",
        ),
    ];
    for (algo, hex) in cases {
        let mut out = Vec::new();
        let mut v = HashVerifier::new(algo, hex, &mut out);
        write_all(&mut v, b"a");
        write_all(&mut v, b"bc");
        assert_eq!(v.bytes_written(), 3);
        assert!(v.finish().is_ok());
        assert_eq!(out, b"abc");

        let mut out = Vec::new();
        let mut v = HashVerifier::new(algo, hex, &mut out);
        write_all(&mut v, b"abd");
        match v.finish() {
            Err(Error::HashMismatch { expected, actual }) => {
                assert_eq!(expected, hex);
                assert_ne!(actual, hex);
                assert_eq!(actual.len(), hex.len());
            }
            _ => panic!("a wrong digest was accepted"),
        }
    }
}

#[test]
fn empty_stream_has_the_digest_of_nothing() {
    let hex = "e3b0c44298fc1c149afbf4c8996fb92427ae41e4649b934ca495991b7852b855";
    let v = HashVerifier::new("sha256", hex, Vec::<u8>::new());
    assert_eq!(v.bytes_written(), 0);
    assert_eq!(v.finish().unwrap(), Vec::<u8>::new());
}

#[test]
fn short_writes_count_only_what_was_accepted() {
    let hash = sha256_hex(b"hello");
    let mut v = HashVerifier::new("sha256", &hash, Vec::<u8>::new());
    v.sink_mut().extend_from_slice(b"hel");
    v.record_written(b"hello world", 3);
    assert_eq!(v.bytes_written(), 3);
    v.record_written(b"", 0);
    assert_eq!(v.bytes_written(), 3);
    v.sink_mut().extend_from_slice(b"lo");
    v.record_written(b"lo and more", 2);
    assert_eq!(v.bytes_written(), 5);
    assert_eq!(v.finish().unwrap(), b"hello");
}

#[test]
fn mismatch_carries_both_digests() {
    let expected = sha256_hex(b"wrong");
    let mut v = HashVerifier::new("sha256", &expected, Vec::<u8>::new());
    v.record_written(b"hello world", 11);
    match v.finish() {
        Err(Error::HashMismatch { expected: e, actual }) => {
            assert_eq!(e, expected);
            assert_eq!(actual, sha256_hex(b"hello world"));
            assert_eq!(
                actual,
                "b94d27b9934d3e08a52e52d7da7dabfac484efe37a5380ee9088f7ace2efcde9"
            );
        }
        _ => panic!("a wrong digest was accepted"),
    }
}

#[test]
fn expected_digest_is_compared_as_written() {
    let upper = sha256_hex(b"hello world").to_uppercase();
    let mut v = HashVerifier::new("sha256", &upper, Vec::<u8>::new());
    v.record_written(b"hello world", 11);
    assert!(matches!(v.finish(), Err(Error::HashMismatch { .. })));
}

#[test]
fn one_direct_source_end_to_end() {
    let data = b"hello world";
    let hash = sha256_hex(data);
    let mut session = FetchSession::new("sha256", &hash, &strings(&["http://src/f"]), &[]).unwrap();
    let attempt = session.next_attempt().unwrap();
    assert_eq!(attempt.url(), "http://src/f");
    assert!(attempt.headers().is_empty());

    let mut v = session.hash_verifier(Vec::<u8>::new());
    v.sink_mut().extend_from_slice(data);
    v.record_written(data, data.len());
    assert_eq!(v.bytes_written(), 11);
    let out = v.finish().unwrap();
    assert_eq!(out, data);

    session.report_success();
    assert!(session.succeeded());
    assert!(session.next_attempt().is_none());
}

#[test]
fn arrangements_are_recognised() {
    assert!(is_arrangement_of(&[], 0));
    assert!(is_arrangement_of(&[0], 1));
    assert!(is_arrangement_of(&[2, 0, 1], 3));
    assert!(!is_arrangement_of(&[0, 1], 3));
    assert!(!is_arrangement_of(&[0, 1, 1], 3));
    assert!(!is_arrangement_of(&[0, 1, 3], 3));
    assert!(!is_arrangement_of(&[0], 0));
    assert!(is_arrangement_of(&shuffled_order(17), 17));
}
