//! Query strings, tokens, relay URLs and base64 text.

use codexl::remote::base64::decode_base64;
use codexl::remote::clock::{now_millis, stored_millis};
use codexl::remote::query::{
    constant_time_eq, hex_value, percent_decode_bytes, percent_decode_query_value, query_param,
};
use codexl::remote::relay::{
    host_relay_scheme, public_relay_scheme, relay_host_ws_url, relay_path, relay_url_room,
    remote_relay_url, try_relay_host_ws_url, try_remote_relay_url,
};
use codexl::remote::token::{
    hex_from_bytes, make_relay_connection_id, make_token, relay_connection_id,
};

#[test]
fn query_param_decodes_values() {
    assert_eq!(
        query_param("token=secret&name=office+mac%2Fone", "name").as_deref(),
        Some("office mac/one")
    );
}

#[test]
fn query_param_takes_the_first_pair_with_the_name() {
    assert_eq!(query_param("a=1&a=2", "a").as_deref(), Some("1"));
    assert_eq!(query_param("a=1=2&b", "a").as_deref(), Some("1=2"));
    assert_eq!(query_param("a=1&b", "b").as_deref(), Some(""));
    assert_eq!(query_param("a=1&b", "c"), None);
    assert_eq!(query_param("", "").as_deref(), Some(""));
    assert_eq!(query_param("%61=1", "a"), None);
    assert_eq!(query_param("%61=1", "%61").as_deref(), Some("1"));
}

#[test]
fn percent_signs_without_two_digits_stand_for_themselves() {
    assert_eq!(percent_decode_query_value("%"), "%");
    assert_eq!(percent_decode_query_value("a%4"), "a%4");
    assert_eq!(percent_decode_query_value("%+"), "%+");
    assert_eq!(percent_decode_query_value("%zz+%41"), "%zz A");
    assert_eq!(percent_decode_query_value("%4+1"), "%4+1");
    assert_eq!(percent_decode_query_value("%e4%BB%a5"), "以");
    assert_eq!(percent_decode_query_value("%FF"), "\u{fffd}");
    assert_eq!(percent_decode_query_value("%ff%41"), "\u{fffd}A");
    assert_eq!(percent_decode_bytes(b"%00%ffx+"), vec![0, 255, b'x', b' ']);
}

#[test]
fn hexadecimal_digits_have_their_values() {
    for byte in 0..=255u8 {
        let expected = (byte as char).to_digit(16).map(|digit| digit as u8);
        assert_eq!(hex_value(byte), expected);
    }
}

#[test]
fn constant_time_comparison_checks_value_and_length() {
    assert!(constant_time_eq(b"secret", b"secret"));
    assert!(!constant_time_eq(b"secret", b"Secret"));
    assert!(!constant_time_eq(b"secret", b"secret-extra"));
}

#[test]
fn constant_time_comparison_tells_a_zero_byte_from_none() {
    assert!(!constant_time_eq(b"secret", b"secret\0"));
    assert!(!constant_time_eq(b"", b"\0"));
    assert!(constant_time_eq(b"", b""));
}

#[test]
fn token_generation_uses_256_bit_hex_tokens() {
    let first = make_token();
    let second = make_token();
    assert_eq!(first.len(), 64);
    assert!(first.chars().all(|ch| ch.is_ascii_hexdigit()));
    assert_ne!(first, second);
}

#[test]
fn relay_connection_id_is_public_prefixed_token() {
    let first = make_relay_connection_id();
    let second = make_relay_connection_id();
    assert!(first.starts_with("relay-host-"));
    assert_eq!(first.len(), "relay-host-".len() + 32);
    assert_ne!(first, second);
}

#[test]
fn tokens_are_their_bytes_in_small_hexadecimal_digits() {
    assert_eq!(hex_from_bytes(&[0, 1, 15, 16, 171, 255]), "00010f10abff");
    let bytes: Vec<u8> = (0..32).collect();
    let token = hex_from_bytes(&bytes);
    assert_eq!(token, "000102030405060708090a0b0c0d0e0f101112131415161718191a1b1c1d1e1f");
    assert_eq!(
        relay_connection_id(&token),
        "relay-host-000102030405060708090a0b0c0d0e0f"
    );
}

#[test]
fn cloud_relay_urls_mark_cloud_auth_without_embedding_access_tokens() {
    let public = remote_relay_url(
        "https://relay.example/base",
        "relay-host-abc123",
        Some("user-1"),
    )
    .expect("public url");
    assert_eq!(
        public,
        "https://relay.example/base/?auth=cloud&token=relay-host-abc123&cloudUser=user-1"
    );

    let host = relay_host_ws_url("https://relay.example/base", "session-token", true)
        .expect("host url");
    assert_eq!(
        host,
        "wss://relay.example/base/ws/host?auth=cloud&token=session-token"
    );
}

#[test]
fn relay_urls_lose_their_query_and_fragment_and_keep_their_host() {
    assert_eq!(
        relay_host_ws_url("http://u:p@relay.example:8080//?x=1#y", "t", false).expect("url"),
        "ws://u:p@relay.example:8080/ws/host?token=t"
    );
    assert_eq!(
        remote_relay_url("WSS://Relay.Example:443", "t", None).expect("url"),
        "https://relay.example/?auth=cloud&token=t"
    );
    assert_eq!(
        remote_relay_url("ws://relay.example:80/a b/../c//?q", "t", Some("  ")).expect("url"),
        "http://relay.example/c/?auth=cloud&token=t"
    );
    assert_eq!(
        relay_host_ws_url("wss://relay.example:80/%2e%2E/x%2Ey|z^", "t", true).expect("url"),
        "wss://relay.example:80/x%2Ey|z^/ws/host?auth=cloud&token=t"
    );
    assert_eq!(
        relay_host_ws_url("https://[::1]:9/ä\\b/", "t", false).expect("url"),
        "wss://[::1]:9/%C3%A4/b/ws/host?token=t"
    );
}

#[test]
fn relay_urls_carry_any_token_and_user() {
    let token = "a b&c=d+e%f/é以*-._~";
    let user = " ü ser ";
    let url = try_remote_relay_url("https://relay.example", token, Some(user))
        .expect("room")
        .expect("url");
    assert_eq!(
        url,
        "https://relay.example/?auth=cloud&token=a+b%26c%3Dd%2Be%25f%2F%C3%A9%E4%BB%A5*-._%7E&cloudUser=%C3%BC+ser"
    );
    let (_, query) = url.split_once('?').expect("query");
    assert_eq!(query_param(query, "auth").as_deref(), Some("cloud"));
    assert_eq!(query_param(query, "token").as_deref(), Some(token));
    assert_eq!(query_param(query, "cloudUser").as_deref(), Some("ü ser"));

    let url = try_relay_host_ws_url("https://relay.example", token, false)
        .expect("room")
        .expect("url");
    let (_, query) = url.split_once('?').expect("query");
    assert_eq!(query_param(query, "token").as_deref(), Some(token));
    assert_eq!(query_param(query, "auth"), None);
    assert_eq!(query_param(query, "cloudUser"), None);
}

#[test]
fn relay_urls_of_other_schemes_are_refused() {
    for url in ["ftp://relay.example", "mailto:a@b  ?x#y", "foo:bar", "foo://h/.//x"] {
        let (scheme, _) = url.split_once(':').expect("scheme");
        let message = format!("unsupported remote relay URL scheme: {}", scheme);
        assert_eq!(remote_relay_url(url, "t", None), Err(message.clone()));
        assert_eq!(relay_host_ws_url(url, "t", true), Err(message));
    }
    let message = reqwest::Url::parse("relay.example").unwrap_err().to_string();
    assert_eq!(remote_relay_url("relay.example", "t", None), Err(message.clone()));
    assert_eq!(relay_host_ws_url("relay.example", "t", true), Err(message));
    assert!(relay_url_room("relay.example"));
    assert!(relay_url_room("https://relay.example"));
    assert!(try_remote_relay_url("relay.example", "t", None).expect("room").is_err());
}

#[test]
fn schemes_keep_their_security() {
    assert_eq!(public_relay_scheme("ws").as_deref(), Ok("http"));
    assert_eq!(public_relay_scheme("http").as_deref(), Ok("http"));
    assert_eq!(public_relay_scheme("wss").as_deref(), Ok("https"));
    assert_eq!(public_relay_scheme("https").as_deref(), Ok("https"));
    assert_eq!(host_relay_scheme("ws").as_deref(), Ok("ws"));
    assert_eq!(host_relay_scheme("http").as_deref(), Ok("ws"));
    assert_eq!(host_relay_scheme("wss").as_deref(), Ok("wss"));
    assert_eq!(host_relay_scheme("https").as_deref(), Ok("wss"));
    assert_eq!(
        host_relay_scheme("ftp").unwrap_err(),
        "unsupported remote relay URL scheme: ftp"
    );
    assert_eq!(
        public_relay_scheme("").unwrap_err(),
        "unsupported remote relay URL scheme: "
    );
    assert_eq!(relay_path("/a//", "/"), "/a/");
    assert_eq!(relay_path("/", "/ws/host"), "/ws/host");
}

#[test]
fn base64_text_is_decoded_up_to_its_end() {
    assert_eq!(decode_base64("").as_deref(), Some(&b""[..]));
    assert_eq!(decode_base64("TWFu").as_deref(), Some(&b"Man"[..]));
    assert_eq!(decode_base64("TWE=").as_deref(), Some(&b"Ma"[..]));
    assert_eq!(decode_base64("TQ==").as_deref(), Some(&b"M"[..]));
    assert_eq!(decode_base64("TWE").as_deref(), Some(&b"Ma"[..]));
    assert_eq!(decode_base64("T").as_deref(), Some(&b""[..]));
    assert_eq!(decode_base64("TWFu=TWFu").as_deref(), Some(&b"Man"[..]));
    assert_eq!(decode_base64("TWFu=*").as_deref(), Some(&b"Man"[..]));
    assert_eq!(decode_base64("++//").as_deref(), Some(&[0xfb, 0xef, 0xff][..]));
}

#[test]
fn blanks_in_base64_text_mean_nothing_and_other_characters_spoil_it() {
    assert_eq!(decode_base64(" T\tW\r\nF u ").as_deref(), Some(&b"Man"[..]));
    assert_eq!(decode_base64("TW-u"), None);
    assert_eq!(decode_base64("TWFu*"), None);
    assert_eq!(decode_base64("é"), None);
    assert_eq!(decode_base64("TWFu\u{a0}"), None);
    assert_eq!(decode_base64("TWFu\u{b}"), None);
}

#[test]
fn every_byte_goes_through_base64() {
    let digits = b"ABCDEFGHIJKLMNOPQRSTUVWXYZabcdefghijklmnopqrstuvwxyz0123456789+/";
    for length in [1usize, 2, 3, 255, 256] {
        let bytes: Vec<u8> = (0..length).map(|i| (i * 7 % 256) as u8).collect();
        let mut text = String::new();
        for chunk in bytes.chunks(3) {
            let mut group: u32 = 0;
            for i in 0..3 {
                group = group * 256 + chunk.get(i).copied().unwrap_or(0) as u32;
            }
            for i in 0..4 {
                if i <= chunk.len() {
                    text.push(digits[(group >> (18 - 6 * i)) as usize % 64] as char);
                } else {
                    text.push('=');
                }
            }
        }
        assert_eq!(decode_base64(&text), Some(bytes));
    }
}

#[test]
fn the_clock_is_stored_in_milliseconds() {
    assert_eq!(stored_millis(None), 0);
    assert_eq!(stored_millis(Some(1_700_000_000_000)), 1_700_000_000_000);
    assert_eq!(stored_millis(Some(u64::MAX as u128 + 3)), 2);
    let before = now_millis();
    let after = now_millis();
    assert!(before > 1_600_000_000_000);
    assert!(after >= before || before - after < 60_000);
}

#[test]
fn relay_urls_are_the_same_for_both_schemes_of_one_security() {
    for rest in [
        "relay.example/base?x=1#y",
        "u:p@Relay.Example:80/a/../b//",
        "relay.example:443/ä",
        "[::1]:8080",
        "relay.example:99999",
        "",
        "  ",
        "@/",
        "a%3Fb/",
        "/relay.example\\x",
    ] {
        for (one, other, host_start, public_start) in [
            ("http://", "ws://", "ws://", "http://"),
            ("https://", "wss://", "wss://", "https://"),
        ] {
            let first = format!("{}{}", one, rest);
            let second = format!("{}{}", other, rest);
            for cloud in [true, false] {
                let host = relay_host_ws_url(&first, "t", cloud);
                assert_eq!(host, relay_host_ws_url(&second, "t", cloud));
                if let Ok(url) = host {
                    let (front, query) = url.split_once('?').expect("query");
                    assert!(front.starts_with(host_start));
                    assert!(front.ends_with("/ws/host"));
                    assert_eq!(query, if cloud { "auth=cloud&token=t" } else { "token=t" });
                }
            }
            let public = remote_relay_url(&first, "t", None);
            assert_eq!(public, remote_relay_url(&second, "t", None));
            if let Ok(url) = public {
                let (front, query) = url.split_once('?').expect("query");
                assert!(front.starts_with(public_start));
                assert!(front.ends_with('/'));
                assert_eq!(query, "auth=cloud&token=t");
            }
        }
    }
}
