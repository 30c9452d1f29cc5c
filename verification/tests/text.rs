use gif_bridge::config::configure;
use gif_bridge::config::Environment;
use gif_bridge::config::SEARCH_CAPACITY;
use gif_bridge::config::SEARCH_TTL_SECONDS;
use gif_bridge::config::TOKEN_CAPACITY;
use gif_bridge::config::TOKEN_TTL_SECONDS;
use gif_bridge::config::URL_CAPACITY;
use gif_bridge::downloads::Downloads;
use gif_bridge::order::oldest_first;
use gif_bridge::query::add_pairs;
use gif_bridge::query::query_url;
use gif_bridge::query::ParsedUrl;
use gif_bridge::text::chars_of;
use gif_bridge::text::decimal_text;
use gif_bridge::text::has_suffix;
use gif_bridge::text::is_white_space;
use gif_bridge::text::parse_u16;
use gif_bridge::text::parse_u32;
use gif_bridge::text::parse_u64;
use gif_bridge::text::same_text;
use gif_bridge::text::strip_prefix;
use gif_bridge::text::trim;

fn pairs(list: &[(&str, &str)]) -> Vec<(String, String)> {
    list.iter()
        .map(|p| (p.0.to_string(), p.1.to_string()))
        .collect()
}

fn bare() -> Environment {
    Environment {
        giphy_api_key: Some("KEY".to_string()),
        openid_verify_url: None,
        port: None,
        cache_dir: None,
        cache_max_bytes: None,
    }
}

#[test]
fn white_space_is_that_of_unicode() {
    for n in 0u32..=0x10ffff {
        if let Some(c) = char::from_u32(n) {
            assert_eq!(is_white_space(c), c.is_whitespace(), "{n:x}");
        }
    }
}

#[test]
fn trimming_is_that_of_str() {
    for s in [
        "",
        " ",
        "cats",
        " cats",
        "cats ",
        "\t cats and dogs\r\n",
        "\u{3000}\u{e9}t\u{e9}\u{2029}",
        "a\u{200b}",
        "\u{85}\u{a0}x\u{1680}",
    ] {
        assert_eq!(trim(s), s.trim());
        assert_eq!(trim(trim(s)), trim(s));
    }
}

#[test]
fn numbers_read_as_std_reads_them() {
    for s in [
        "", "+", "-", "0", "-0", "+0", "00", "007", "+7", "++7", "1 ", " 1", "1_000", "0x10",
        "65535", "65536", "4294967295", "4294967296", "+4294967295",
        "18446744073709551615", "18446744073709551616", "18446744073709551620",
        "99999999999999999999", "00000000000000000000000000000000000001", "\u{664}", "1.0", "12a",
    ] {
        assert_eq!(parse_u16(s), s.parse::<u16>().ok(), "{s}");
        assert_eq!(parse_u32(s), s.parse::<u32>().ok(), "{s}");
        assert_eq!(parse_u64(s), s.parse::<u64>().ok(), "{s}");
    }
}

#[test]
fn numbers_write_as_std_writes_them() {
    for n in [0, 1, 9, 10, 11, 99, 100, 4294967295, 18446744073709551615] {
        let n: u64 = n;
        assert_eq!(decimal_text(n), n.to_string());
        assert_eq!(parse_u64(&decimal_text(n)), Some(n));
    }
}

#[test]
fn texts_are_taken_apart() {
    assert_eq!(chars_of("a\u{e9}\u{1f600}"), vec!['a', '\u{e9}', '\u{1f600}']);
    assert!(same_text("caf\u{e9}", "caf\u{e9}"));
    assert!(!same_text("cafe", "caf\u{e9}"));
    assert!(!same_text("a", "ab"));
    assert_eq!(strip_prefix("\u{e9}ab", "\u{e9}"), Some("ab"));
    assert_eq!(strip_prefix("ab", ""), Some("ab"));
    assert_eq!(strip_prefix("ab", "abc"), None);
    assert_eq!(strip_prefix("ab", "b"), None);
    assert!(has_suffix("x.tmp", ".tmp"));
    assert!(has_suffix(".tmp", ".tmp"));
    assert!(!has_suffix("tmp", ".tmp"));
    assert!(!has_suffix("x.tmp2", ".tmp"));
    assert!(!has_suffix("x.TMP", ".tmp"));
    assert!(has_suffix("\u{1f600}.tmp", ".tmp"));
}

#[test]
fn stamps_are_sorted_by_age() {
    let stamps = vec![(5, 0), (3, 1), (5, 2), (-1, 3), (3, 4), (0, 5)];
    let sorted = oldest_first(&stamps);
    assert_eq!(sorted, vec![(-1, 3), (0, 5), (3, 1), (3, 4), (5, 0), (5, 2)]);
    assert!(oldest_first(&vec![]).is_empty());
    let many: Vec<(i128, usize)> = (0..1000).map(|i| ((i as i128 * 7919) % 97, i)).collect();
    let mut expected = many.clone();
    expected.sort_by_key(|s| s.0);
    assert_eq!(oldest_first(&many), expected);
}

#[test]
fn parameters_are_encoded() {
    assert_eq!(
        query_url(
            "https://api.giphy.com/v1/gifs/search",
            &pairs(&[("q", "a b&c=d#\u{e9}")])
        )
        .unwrap(),
        "https://api.giphy.com/v1/gifs/search?q=a+b%26c%3Dd%23%C3%A9"
    );
    assert_eq!(
        query_url("https://h/", &pairs(&[("a b", "*-._~+%/?\u{0}")])).unwrap(),
        "https://h/?a+b=*-._%7E%2B%25%2F%3F%00"
    );
}

#[test]
fn every_byte_is_encoded_as_stated() {
    for b in 0u8..128 {
        let value = (b as char).to_string();
        let expected = if b.is_ascii_alphanumeric() || b"*-._".contains(&b) {
            value.clone()
        } else if b == b' ' {
            "+".to_string()
        } else {
            format!("%{b:02X}")
        };
        assert_eq!(
            query_url("https://h/", &pairs(&[("x", &value)])).unwrap(),
            format!("https://h/?x={expected}")
        );
    }
}

#[test]
fn parameters_join_those_that_are_there() {
    let one = pairs(&[("t", "1")]);
    assert_eq!(query_url("https://h", &one).unwrap(), "https://h/?t=1");
    assert_eq!(query_url("https://h/x?", &one).unwrap(), "https://h/x?t=1");
    assert_eq!(
        query_url("https://h/x?a=1", &one).unwrap(),
        "https://h/x?a=1&t=1"
    );
    assert_eq!(
        query_url("https://h/x?a=1#f?g#h", &one).unwrap(),
        "https://h/x?a=1&t=1#f?g#h"
    );
    assert_eq!(
        query_url("https://h/x#f", &one).unwrap(),
        "https://h/x?t=1#f"
    );
    assert_eq!(
        query_url("https://h/x?#f", &one).unwrap(),
        "https://h/x?t=1#f"
    );
    assert_eq!(query_url("mailto:a", &one).unwrap(), "mailto:a?t=1");
    assert_eq!(query_url("mailto:a?#b?c", &one).unwrap(), "mailto:a?t=1#b?c");
    assert_eq!(
        query_url("https://u?x@h/#", &one).unwrap(),
        "https://u/?x@h/&t=1#"
    );
    assert_eq!(
        query_url("https://u:p@h:81/a%20b", &pairs(&[("a", "1"), ("b", ""), ("", "2")])).unwrap(),
        "https://u:p@h:81/a%20b?a=1&b=&=2"
    );
}

#[test]
fn parameters_are_added_to_a_parsed_url() {
    let url = ParsedUrl::parse("https://h/x#f").unwrap();
    assert_eq!(
        add_pairs(url, &pairs(&[("a", "1"), ("b", "2 3")])).unwrap(),
        "https://h/x?a=1&b=2+3#f"
    );
}

#[test]
fn base_is_parsed() {
    assert_eq!(
        query_url("HTTPS://Example.COM:443/a/../b", &vec![]).unwrap(),
        "https://example.com/b"
    );
    assert!(query_url("no url", &pairs(&[("t", "1")])).is_none());
    assert!(query_url("", &vec![]).is_none());
    assert!(ParsedUrl::parse("no url").is_none());
    assert!(query_url("/relative", &vec![]).is_none());
}

#[test]
fn settings_have_defaults() {
    let config = configure(bare()).unwrap();
    assert_eq!(config.giphy_api_key, "KEY");
    assert_eq!(
        config.openid_verify_base,
        "https://matrix.loaf.moe/_matrix/federation/v1/openid/userinfo"
    );
    assert_eq!(config.port, 8080);
    assert_eq!(config.cache_dir, "./cache");
    assert_eq!(config.cache_max_bytes, 2 * 1024 * 1024 * 1024);
}

#[test]
fn settings_are_taken_from_the_environment() {
    let mut env = bare();
    env.openid_verify_url = Some("https://x/".to_string());
    env.port = Some("81".to_string());
    env.cache_dir = Some("/data".to_string());
    env.cache_max_bytes = Some("12".to_string());
    let config = configure(env).unwrap();
    assert_eq!(config.openid_verify_base, "https://x/");
    assert_eq!(config.port, 81);
    assert_eq!(config.cache_dir, "/data");
    assert_eq!(config.cache_max_bytes, 12);
}

#[test]
fn numbers_that_do_not_read_give_way_to_defaults() {
    let mut env = bare();
    env.port = Some("65536".to_string());
    env.cache_max_bytes = Some("2G".to_string());
    let config = configure(env).unwrap();
    assert_eq!(config.port, 8080);
    assert_eq!(config.cache_max_bytes, 2147483648);
}

#[test]
fn api_key_is_required() {
    let mut env = bare();
    env.giphy_api_key = None;
    env.port = Some("81".to_string());
    assert!(configure(env).is_none());
}

#[test]
fn memory_is_bounded() {
    assert_eq!(TOKEN_TTL_SECONDS, 15 * 60);
    assert_eq!(TOKEN_CAPACITY, 10_000);
    assert_eq!(SEARCH_TTL_SECONDS, 60 * 60);
    assert_eq!(SEARCH_CAPACITY, 1_000);
    assert_eq!(URL_CAPACITY, 50_000);
}

#[test]
fn one_download_per_key() {
    let mut downloads = Downloads::new();
    assert!(downloads.join("abc.full"));
    assert!(!downloads.join("abc.full"));
    assert!(downloads.join("abc.thumb"));
    assert!(!downloads.join("abc.full"));
    downloads.end("abc.thumb");
    assert!(!downloads.join("abc.full"));
    downloads.end("abc.full");
    assert!(downloads.join("abc.full"));
    downloads.end("never");
    assert!(downloads.join("abc.thumb"));
}
