use pubky_hs_inspect::client::{
    classify_input, is_potential_key, is_valid_z32, is_z32, key_z32, looks_like_pubkey,
    parse_input, resolve_pubky, unwrap_angle_key_str, InputType,
};

const USER_KEY: &str = "8um71us3fyw6h8wbcxb5ar3rwusy1a6u49956ikzojg3gcwd1dty";
const Z32_ALPHABET_KEY: &str = "234567abcdefgjkmnpqrtvwxyz234567abcdefgjkmnpqrtvwxyz";

#[test]
fn test_parse_input_url() {
    let parsed = parse_input("https://example.pubky.app");
    assert!(parsed.is_url());
    match parsed {
        InputType::Url(u) => assert_eq!(u, "https://example.pubky.app"),
        _ => panic!("expected Url"),
    }
}

#[test]
fn test_parse_input_path() {
    let parsed =
        parse_input("234567abcdefgjkmnpqrtvwxyz234567abcdefgjkmnpqrtvwxyz/pub/my-app/file.txt");
    assert!(parsed.is_url());
}

#[test]
fn test_is_valid_z32() {
    assert!(is_valid_z32(
        "234567abcdefgjkmnpqrtvwxyz234567abcdefgjkmnpqrtvwxyz"
    ));
    assert!(!is_valid_z32("https://example.com"));
    assert!(!is_valid_z32("pubky<key>"));
    assert!(!is_valid_z32(""));
}

#[test]
fn test_looks_like_pubkey_valid() {
    assert!(looks_like_pubkey(
        "234567abcdefgjkmnpqrtvwxyz234567abcdefgjkmnpqrtvwxyz"
    ));
    assert!(looks_like_pubkey(
        "pubky<234567abcdefgjkmnpqrtvwxyz234567abcdefgjkmnpqrtvwxyz>"
    ));
}

#[test]
fn test_looks_like_pubkey_invalid() {
    assert!(!looks_like_pubkey("abc123"));
    assert!(!looks_like_pubkey(
        "234567abcdefgjkmnpqrtvwxyz234567abcdefgjkmnpqrtvwxyz/pub/file"
    ));
}

#[test]
fn test_user_key_parsing() {
    let parsed = parse_input("8um71us3fyw6h8wbcxb5ar3rwusy1a6u49956ikzojg3gcwd1dty");
    assert!(
        parsed.is_pubkey(),
        "User's key should be recognized as pubkey"
    );
    match parsed {
        InputType::PublicKey(k) => assert_eq!(
            k,
            "8um71us3fyw6h8wbcxb5ar3rwusy1a6u49956ikzojg3gcwd1dty"
        ),
        _ => panic!("expected PublicKey"),
    }
}

#[test]
fn angle_wrapped_user_key_is_a_key_kept_as_typed() {
    let typed = format!("pubky<{USER_KEY}>");
    match parse_input(&typed) {
        InputType::PublicKey(k) => assert_eq!(k, typed),
        _ => panic!("expected PublicKey"),
    }
}

#[test]
fn empty_and_bare_angle_input_are_urls() {
    assert!(parse_input("").is_url());
    assert!(parse_input("pubky<>").is_url());
}

#[test]
fn classify_input_follows_the_parser_verdict() {
    assert!(classify_input(USER_KEY, true).is_pubkey());
    assert!(classify_input(USER_KEY, false).is_url());
    assert!(classify_input("short", true).is_url());
    assert!(classify_input(&format!("{USER_KEY}/x"), true).is_url());
}

#[test]
fn potential_key_counts_bytes() {
    assert!(is_potential_key(USER_KEY));
    // 51 characters, one of them two bytes long: 52 bytes.
    let wide = format!("é{}", &USER_KEY[..50]);
    assert_eq!(wide.chars().count(), 51);
    assert!(is_potential_key(&wide));
    assert!(!is_potential_key(&USER_KEY[..51]));
}

#[test]
fn z32_host_needs_ten_key_text_characters() {
    assert!(is_z32("ybndrfg8ej"));
    assert!(!is_z32("ybndrfg8e"));
    assert!(is_z32(USER_KEY));
    assert!(is_z32("9kx3kz7y2jvm4h8qgdp1fwbncs5e6tuxragwoidz8h73bqy41vfx"));
    // Key text may use the z-base-32 alphabet and the characters of `is_valid_z32`.
    assert!(is_z32(Z32_ALPHABET_KEY));
    assert!(is_z32("ybndrfg8ej2v"));
    assert!(!is_z32("ybndrfg8ej0"));
    assert!(!is_z32("lllllllllll"));
    assert!(!is_z32(""));
}

#[test]
fn unwrap_needs_both_ends() {
    assert_eq!(unwrap_angle_key_str("pubky<abc>"), "abc");
    assert_eq!(unwrap_angle_key_str("pubky<abc"), "pubky<abc");
    assert_eq!(unwrap_angle_key_str("abc>"), "abc>");
    assert_eq!(unwrap_angle_key_str("pubky<>"), "");
}

#[test]
fn key_z32_reads_prefixed_keys() {
    assert_eq!(key_z32(USER_KEY), Ok(USER_KEY.to_string()));
    assert_eq!(key_z32(&format!("pubky{USER_KEY}")), Ok(USER_KEY.to_string()));
    assert!(key_z32("short").is_err());
    assert!(key_z32(&format!("pubky<{USER_KEY}>")).is_err());
}

#[test]
fn resolve_pubky_gives_transport_urls() {
    let url = resolve_pubky(&format!("pubky://{USER_KEY}/pub/file.json")).unwrap();
    assert_eq!(
        url,
        format!("https://_pubky.{USER_KEY}/storage/{USER_KEY}/pub/file.json")
    );
    assert!(resolve_pubky("https://example.com").is_err());
}

#[test]
fn parsed_keys_look_like_keys() {
    for input in [USER_KEY, "short", "", "pubky<>", "https://example.pubky.app"] {
        if parse_input(input).is_pubkey() {
            assert!(looks_like_pubkey(input));
        }
    }
    assert!(looks_like_pubkey(&format!("pubky<{USER_KEY}>")));
}
