use fetchurl_sdk::{
    encode_sfv_string_list, encode_source_urls, is_supported, normalize_algo,
    parse_fetchurl_server, parse_sfv_string_list, to_hex, Error,
};

fn strings(items: &[&str]) -> Vec<String> {
    items.iter().map(|s| s.to_string()).collect()
}

#[test]
fn test_normalize_algo() {
    assert_eq!(normalize_algo("SHA-256"), "sha256");
    assert_eq!(normalize_algo("sha256"), "sha256");
    assert_eq!(normalize_algo("SHA512"), "sha512");
    assert_eq!(normalize_algo("md5"), "md5");
}

#[test]
fn test_is_supported() {
    assert!(is_supported("sha256"));
    assert!(is_supported("SHA-256"));
    assert!(is_supported("sha1"));
    assert!(is_supported("sha512"));
    assert!(!is_supported("md5"));
}

#[test]
fn test_sfv_encode() {
    assert_eq!(
        encode_sfv_string_list(&strings(&["https://a.com", "https://b.com"])),
        r#""https://a.com", "https://b.com""#
    );
}

#[test]
fn test_sfv_parse() {
    let parsed = parse_sfv_string_list(r#""https://a.com", "https://b.com""#);
    assert_eq!(parsed, vec!["https://a.com", "https://b.com"]);
}

#[test]
fn test_sfv_roundtrip() {
    let urls = strings(&[
        "https://cdn.example.com/file.tar.gz",
        "https://mirror.org/archive.tgz",
    ]);
    let encoded = encode_sfv_string_list(&urls);
    let decoded = parse_sfv_string_list(&encoded);
    assert_eq!(decoded, urls);
}

#[test]
fn test_sfv_parse_with_parameters() {
    let parsed = parse_sfv_string_list(r#""https://a.com";q=0.9, "https://b.com""#);
    assert_eq!(parsed, vec!["https://a.com", "https://b.com"]);
}

#[test]
fn normalize_ignores_case_and_separators() {
    for name in ["sha256", "SHA256", "Sha-256", "s.h.a_2 5/6", " sha256 ", "sha\u{e9}256"] {
        assert_eq!(normalize_algo(name), "sha256");
    }
    assert_eq!(normalize_algo(""), "");
    assert_eq!(normalize_algo("-- --"), "");
    assert_eq!(normalize_algo("AZaz09@[`{/:"), "azaz09");
}

#[test]
fn normalize_is_idempotent() {
    let once = normalize_algo("Blake2b-512!");
    assert_eq!(once, "blake2b512");
    assert_eq!(normalize_algo(&once), once);
}

#[test]
fn supported_set_is_closed() {
    assert!(is_supported("SHA_1"));
    assert!(is_supported("Sha-512"));
    assert!(!is_supported("sha384"));
    assert!(!is_supported("sha2560"));
    assert!(!is_supported("sha"));
    assert!(!is_supported(""));
}

#[test]
fn encode_escapes_quotes_and_backslashes() {
    assert_eq!(encode_sfv_string_list(&strings(&[])), "");
    assert_eq!(encode_sfv_string_list(&strings(&[""])), "\"\"");
    assert_eq!(
        encode_sfv_string_list(&strings(&["a\"b", "c\\d"])),
        "\"a\\\"b\", \"c\\\\d\""
    );
    assert_eq!(encode_source_urls(&strings(&["http://x/?q=\"1\""])), "\"http://x/?q=\\\"1\\\"\"");
}

#[test]
fn roundtrip_with_quotes_backslashes_and_commas() {
    let items = strings(&[
        "",
        "\"",
        "\\",
        "\\\"",
        "a, b",
        "tab\there; q=1",
        "trailing\\",
        "caf\u{e9} \u{1f600}",
        "\"quoted\", \"twice\"",
    ]);
    assert_eq!(parse_sfv_string_list(&encode_sfv_string_list(&items)), items);
    let none: Vec<String> = Vec::new();
    assert_eq!(parse_sfv_string_list(&encode_sfv_string_list(&none)), none);
}

#[test]
fn parse_passes_over_what_is_no_string() {
    let empty: Vec<String> = Vec::new();
    assert_eq!(parse_sfv_string_list(""), empty);
    assert_eq!(parse_sfv_string_list("  \t "), empty);
    assert_eq!(parse_sfv_string_list("token, 42, ?1"), empty);
    assert_eq!(parse_sfv_string_list("token, \"a\", 12, \"b\""), vec!["a", "b"]);
    assert_eq!(parse_sfv_string_list(" \t\"a\" \t,\t \"b\"  "), vec!["a", "b"]);
    assert_eq!(parse_sfv_string_list("\"a\"\"b\", \"c\""), vec!["a", "c"]);
    assert_eq!(parse_sfv_string_list(",,\"a\",,"), vec!["a"]);
}

#[test]
fn parse_reads_unclosed_and_escaped_strings() {
    assert_eq!(parse_sfv_string_list("\"abc"), vec!["abc"]);
    assert_eq!(parse_sfv_string_list("\"abc\\"), vec!["abc\\"]);
    assert_eq!(parse_sfv_string_list("\"a\\\"b\\\\c\\d\""), vec!["a\"b\\cd"]);
    assert_eq!(parse_sfv_string_list("\"a,b\", \"c\""), vec!["a,b", "c"]);
    assert_eq!(parse_sfv_string_list("\""), vec![""]);
}

#[test]
fn parse_fetchurl_server_reads_the_base_urls() {
    assert_eq!(
        parse_fetchurl_server("\"http://cache1\", \"http://cache2\""),
        vec!["http://cache1", "http://cache2"]
    );
    assert!(parse_fetchurl_server("").is_empty());
}

#[test]
fn to_hex_is_lower_case_two_digits_a_byte() {
    assert_eq!(to_hex(&[]), "");
    assert_eq!(to_hex(&[0x00, 0x09, 0x0a, 0x0f, 0x10, 0x9f, 0xa0, 0xff]), "00090a0f109fa0ff");
    assert_eq!(to_hex(&[0xde, 0xad, 0xbe, 0xef]), "deadbeef");
}

#[test]
fn error_messages() {
    let e = Error::UnsupportedAlgorithm("md5".to_string());
    assert_eq!(e.message(), "unsupported algorithm: md5");
    let e = Error::HashMismatch { expected: "ab".to_string(), actual: "cd".to_string() };
    assert_eq!(e.message(), "hash mismatch: expected ab, got cd");
}
