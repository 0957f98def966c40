use pubky_hs_inspect::cli::{command_homeserver, stream_homeserver};
use pubky_hs_inspect::homeserver::{
    homeserver_info_from_endpoint, homeserver_info_from_key, homeserver_resource, homeserver_url,
    transport_url, HomeserverInfo,
};
use pubky_hs_inspect::shared::{
    direct_homeserver_url, looked_up_homeserver_url, profile_url,
    shown_base_url, split_event_line, storage_address, strip_pubky_scheme, EventKind,
};
use pubky_hs_inspect::text::looks_like_json_object;

const USER_KEY: &str = "8um71us3fyw6h8wbcxb5ar3rwusy1a6u49956ikzojg3gcwd1dty";
const HS_KEY: &str = "9kx3kz7y2jvm4h8qgdp1fwbncs5e6tuxragwoidz8h73bqy41vfx";

fn info(domain: Option<&str>) -> HomeserverInfo {
    HomeserverInfo {
        user_z32: USER_KEY.to_string(),
        homeserver_z32: HS_KEY.to_string(),
        homeserver_domain: domain.map(|d| d.to_string()),
        port: None,
        record_public_key: HS_KEY.to_string(),
    }
}

#[test]
fn strip_pubky_scheme_forms() {
    assert_eq!(strip_pubky_scheme("pubky://abc/pub/x"), "abc/pub/x");
    assert_eq!(strip_pubky_scheme("pubky<abc>"), "abc");
    assert_eq!(strip_pubky_scheme("pubky<>"), "");
    assert_eq!(strip_pubky_scheme("pubky<abc"), "pubky<abc");
    assert_eq!(strip_pubky_scheme("abc/pub/x"), "abc/pub/x");
    assert_eq!(strip_pubky_scheme("pubky://pubky://x"), "pubky://x");
}

#[test]
fn event_lines_split_into_type_and_rest() {
    let put = split_event_line("PUT /pub/a.txt").unwrap();
    assert_eq!(put.kind, EventKind::Put);
    assert_eq!(put.event_type, "PUT");
    assert_eq!(put.rest, "/pub/a.txt");

    let del = split_event_line("DEL   /pub/b.txt  ").unwrap();
    assert_eq!(del.kind, EventKind::Del);
    assert_eq!(del.rest, "/pub/b.txt");

    let other = split_event_line("GET /x").unwrap();
    assert_eq!(other.kind, EventKind::Other);
    assert_eq!(other.event_type, "GET");

    assert!(split_event_line("   ").is_none());
    assert!(split_event_line("").is_none());

    // The rest starts as many bytes in as the type is long, counted from the
    // start of the line.
    let shifted = split_event_line("  PUT x").unwrap();
    assert_eq!(shifted.event_type, "PUT");
    assert_eq!(shifted.rest, "UT x");
}

#[test]
fn endpoint_domain_names_the_homeserver() {
    let i = homeserver_info_from_endpoint(
        USER_KEY.to_string(),
        "ignored.example".to_string(),
        Some("hs.example.com".to_string()),
        Some(443),
        HS_KEY.to_string(),
    );
    assert_eq!(i.user_z32, USER_KEY);
    assert_eq!(i.homeserver_z32, "hs.example.com");
    assert_eq!(i.homeserver_domain, Some("hs.example.com".to_string()));
    assert_eq!(i.port, Some(443));
    assert_eq!(i.record_public_key, HS_KEY);
}

#[test]
fn endpoint_target_or_user_key_names_the_homeserver() {
    let pick = |target: &str| {
        homeserver_info_from_endpoint(
            USER_KEY.to_string(),
            target.to_string(),
            None,
            None,
            HS_KEY.to_string(),
        )
        .homeserver_z32
    };
    assert_eq!(pick("."), USER_KEY);
    assert_eq!(pick("hs.example.com"), USER_KEY);
    assert_eq!(pick(HS_KEY), HS_KEY);
    assert_eq!(pick("ybndrfg8ejkm"), "ybndrfg8ejkm");
    assert_eq!(pick("ybndrfg8e"), USER_KEY);
    assert_eq!(pick("234567abcdefgjkm"), "234567abcdefgjkm");
    assert_eq!(pick("ybndrfg8ej0"), USER_KEY);
}

#[test]
fn key_only_info_has_no_domain() {
    let i = homeserver_info_from_key(USER_KEY.to_string(), HS_KEY.to_string());
    assert_eq!(i.homeserver_z32, HS_KEY);
    assert_eq!(i.homeserver_domain, None);
    assert_eq!(i.port, None);
    assert_eq!(i.record_public_key, HS_KEY);
}

#[test]
fn urls_of_a_homeserver() {
    let plain = info(None);
    let named = info(Some("hs.example.com"));
    assert_eq!(homeserver_url(&plain), format!("https://_pubky.{HS_KEY}/"));
    assert_eq!(homeserver_url(&named), "https://hs.example.com/");
    assert_eq!(
        homeserver_resource(&named, "pub/a"),
        "https://hs.example.com/pub/a"
    );
    assert_eq!(named.resource_url("pub/a"), homeserver_resource(&named, "pub/a"));
    assert_eq!(plain.resource_url("x"), format!("https://_pubky.{HS_KEY}/x"));
    assert_eq!(
        transport_url(USER_KEY, "pub/pubky.app/profile.json"),
        format!("https://_pubky.{USER_KEY}/pub/pubky.app/profile.json")
    );
    assert_eq!(shown_base_url(&named), format!("https://{HS_KEY}/"));
    assert_eq!(shown_base_url(&plain), format!("https://_pubky.{HS_KEY}/"));
    assert_eq!(profile_url("https://h/"), "https://h/pub/pubky.app/profile.json");
    assert_eq!(storage_address(USER_KEY, "/pub/"), format!("pubky://{USER_KEY}/pub/"));
}

#[test]
fn homeserver_url_resolution() {
    assert_eq!(
        direct_homeserver_url("https://example.com//"),
        Some("https://example.com".to_string())
    );
    assert_eq!(direct_homeserver_url("http://a"), Some("http://a".to_string()));
    assert_eq!(direct_homeserver_url("example.com"), None);
    assert_eq!(looked_up_homeserver_url("example.com", None), "https://example.com");
    assert_eq!(looked_up_homeserver_url("", None), "https://");
    let named = info(Some("hs.example.com"));
    assert_eq!(
        looked_up_homeserver_url(HS_KEY, Some(&named)),
        "https://hs.example.com"
    );
    assert_eq!(
        looked_up_homeserver_url(HS_KEY, Some(&info(None))),
        format!("https://_pubky.{HS_KEY}")
    );
}

#[test]
fn command_targets() {
    let some = |s: &str| Some(s.to_string());
    assert_eq!(command_homeserver(&some("a"), &some("b")), "a");
    assert_eq!(command_homeserver(&None, &some("b")), "b");
    assert_eq!(command_homeserver(&None, &None), "");
    assert_eq!(stream_homeserver(&None, &None), None);
    assert_eq!(stream_homeserver(&some("https://h//"), &None), some("https://h"));
    assert_eq!(stream_homeserver(&None, &some("h")), some("h"));
}

#[test]
fn json_bodies_are_recognised_by_their_brace() {
    assert!(looks_like_json_object("  {\"a\":1}"));
    assert!(!looks_like_json_object("[1]"));
    assert!(!looks_like_json_object(""));
}

#[test]
fn both_forms_of_an_identifier_strip_to_the_same_address() {
    let k = format!("{USER_KEY}/pub/a.txt");
    assert_eq!(strip_pubky_scheme(&format!("pubky<{k}>")), k);
    assert_eq!(strip_pubky_scheme(&format!("pubky://{k}")), k);
}

#[test]
fn direct_urls_lose_only_trailing_slashes() {
    let url = direct_homeserver_url("https://h/a///").unwrap();
    assert_eq!(url, "https://h/a");
    assert!(!url.ends_with('/'));
    assert_eq!(direct_homeserver_url("https:///"), Some("https:".to_string()));
}
