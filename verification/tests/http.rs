use packetsmith::response::{preview, simple_base64, PREVIEW_CHARS};
use packetsmith::http::{HttpMethod, ProxyConfig, QueryParam};
use packetsmith::response::{
    format_byte_size, format_json_pretty, generate_hex_dump, parse_cookies_from_headers,
    HttpStatusCategory,
};
use packetsmith::url_sync::{HeaderPresets, UrlSyncEngine};

#[test]
fn test_no_proxy_matching() {
    let config = ProxyConfig {
        enabled: true,
        http_proxy: None,
        https_proxy: None,
        no_proxy: vec!["localhost".into(), ".internal.net".into()],
    };

    assert!(config.is_match_no_proxy("localhost"));
    assert!(config.is_match_no_proxy("service.internal.net"));
    assert!(!config.is_match_no_proxy("external.com"));
}

#[test]
fn test_http_method_parse() {
    assert_eq!("get".parse::<HttpMethod>().unwrap(), HttpMethod::Get);
    assert_eq!("POST".parse::<HttpMethod>().unwrap(), HttpMethod::Post);
    assert_eq!("PURGE".parse::<HttpMethod>().unwrap(), HttpMethod::Custom("PURGE".to_string()));
}

#[test]
fn test_format_byte_size() {
    assert_eq!(format_byte_size(500), "500 B");
    assert_eq!(format_byte_size(1536), "1.5 KB");
    assert_eq!(format_byte_size(2 * 1024 * 1024), "2.00 MB");
}

#[test]
fn test_hex_dump_generation() {
    let data = b"Hello, World!";
    let dump = generate_hex_dump(data);
    assert!(dump.starts_with("00000000  48 65 6c 6c 6f 2c 20 57"));
    assert!(dump.contains("|Hello, World!|"));
}

#[test]
fn test_json_pretty() {
    let compact = "{\"message\":\"ok\",\"count\":1}";
    let pretty = format_json_pretty(compact).expect("format json");
    assert!(pretty.contains("\n"));
    assert!(pretty.contains("  \"message\": \"ok\""));
}

#[test]
fn test_parse_and_build_url() {
    let raw = "https://api.example.com/v1/search?query=rust&limit=25";
    let (base, params) = UrlSyncEngine::parse_url(raw);
    assert_eq!(base, "https://api.example.com/v1/search");
    assert_eq!(params.len(), 2);
    assert_eq!(params[0].key, "query");
    assert_eq!(params[0].value, "rust");

    let reconstructed = UrlSyncEngine::build_url(&base, &params);
    assert_eq!(reconstructed, raw);
}

#[test]
fn test_detect_path_variables() {
    let vars =
        UrlSyncEngine::detect_path_variables("https://api.example.com/users/:userId/orders/{{orderId}}");
    assert_eq!(vars, vec!["userId".to_string(), "orderId".to_string()]);
}

#[test]
fn test_bulk_parse_and_serialize() {
    let text = "Accept: application/json\nAuthorization: Bearer xyz\n";
    let parsed = UrlSyncEngine::parse_bulk_text(text);
    assert_eq!(parsed.len(), 2);
    assert_eq!(parsed[0].0, "Accept");
    assert_eq!(parsed[0].1, "application/json");

    let serialized = UrlSyncEngine::serialize_bulk_text(&parsed);
    assert_eq!(serialized, "Accept: application/json\nAuthorization: Bearer xyz");
}

#[test]
fn method_names_round_trip() {
    assert_eq!(HttpMethod::parse("delete").as_str(), "DELETE");
    assert_eq!(HttpMethod::parse("Options"), HttpMethod::Options);
    assert_eq!(HttpMethod::parse("purge").as_str(), "purge");
}

#[test]
fn proxy_wildcard_and_case() {
    let star = ProxyConfig { enabled: true, http_proxy: None, https_proxy: None, no_proxy: vec!["*".into()] };
    assert!(star.is_match_no_proxy("anything.example"));
    let upper = ProxyConfig {
        enabled: true,
        http_proxy: None,
        https_proxy: None,
        no_proxy: vec!["LocalHost".into()],
    };
    assert!(upper.is_match_no_proxy("LOCALHOST"));
    assert!(!upper.is_match_no_proxy("localhost.evil"));
}

#[test]
fn byte_sizes_round_half_to_even() {
    assert_eq!(format_byte_size(0), "0 B");
    assert_eq!(format_byte_size(1023), "1023 B");
    assert_eq!(format_byte_size(1024), "1.0 KB");
    assert_eq!(format_byte_size(1075), "1.0 KB");
    assert_eq!(format_byte_size(1126), "1.1 KB");
    assert_eq!(format_byte_size(1048575), "1024.0 KB");
    assert_eq!(format_byte_size(1048576), "1.00 MB");
    assert_eq!(format_byte_size(1572864), "1.50 MB");
}

#[test]
fn hex_dump_lines_and_padding() {
    let bytes: Vec<u8> = (0u8..18).collect();
    let dump = generate_hex_dump(&bytes);
    let lines: Vec<&str> = dump.lines().collect();
    assert_eq!(lines.len(), 2);
    assert_eq!(
        lines[0],
        "00000000  00 01 02 03 04 05 06 07  08 09 0a 0b 0c 0d 0e 0f  |................|"
    );
    assert_eq!(
        lines[1],
        "00000010  10 11                                             |..|"
    );
    assert_eq!(generate_hex_dump(&[]), "");
}

#[test]
fn status_categories() {
    assert_eq!(HttpStatusCategory::from_status_code(101), HttpStatusCategory::Informational);
    assert_eq!(HttpStatusCategory::from_status_code(204), HttpStatusCategory::Successful);
    assert_eq!(HttpStatusCategory::from_status_code(301), HttpStatusCategory::Redirection);
    assert_eq!(HttpStatusCategory::from_status_code(404), HttpStatusCategory::ClientError);
    assert_eq!(HttpStatusCategory::from_status_code(503), HttpStatusCategory::ServerError);
    assert_eq!(HttpStatusCategory::from_status_code(99), HttpStatusCategory::Unknown);
    assert_eq!(HttpStatusCategory::from_status_code(600), HttpStatusCategory::Unknown);
}

#[test]
fn cookies_come_from_set_cookie_headers_only() {
    let headers = vec![
        ("Set-Cookie".to_string(), "session = abc123 ; Path=/; HttpOnly".to_string()),
        ("Content-Type".to_string(), "text/html".to_string()),
        ("set-cookie".to_string(), "Secure; theme=dark".to_string()),
        ("SET-COOKIE".to_string(), "flag".to_string()),
    ];
    let cookies = parse_cookies_from_headers(&headers);
    assert_eq!(
        cookies,
        vec![
            ("session".to_string(), "abc123".to_string()),
            ("theme".to_string(), "dark".to_string())
        ]
    );
}

#[test]
fn invalid_json_is_an_error() {
    assert!(format_json_pretty("{not json").is_err());
}

#[test]
fn query_strings_skip_empty_pieces_and_decode() {
    let params = UrlSyncEngine::parse_query_string("a=1&&b&c=x%20y+z");
    let pairs: Vec<(String, String)> =
        params.iter().map(|p| (p.key.clone(), p.value.clone())).collect();
    assert_eq!(
        pairs,
        vec![
            ("a".to_string(), "1".to_string()),
            ("b".to_string(), "".to_string()),
            ("c".to_string(), "x y z".to_string())
        ]
    );
    assert!(UrlSyncEngine::parse_query_string("").is_empty());
}

#[test]
fn build_url_encodes_and_skips_disabled() {
    let params = vec![
        QueryParam { key: "q".into(), value: "a b".into(), enabled: true, description: None },
        QueryParam { key: "off".into(), value: "1".into(), enabled: false, description: None },
        QueryParam { key: "flag".into(), value: "".into(), enabled: true, description: None },
    ];
    assert_eq!(UrlSyncEngine::build_url("https://x.test/p?z=1", &params), "https://x.test/p?z=1&q=a+b&flag");
    assert_eq!(UrlSyncEngine::build_url("https://x.test", &params[1..2]), "https://x.test");
    assert_eq!(UrlSyncEngine::percent_encode("a/b"), "a%2Fb");
    assert_eq!(UrlSyncEngine::percent_decode("a%2Fb"), "a/b");
}

#[test]
fn path_variables_are_listed_once() {
    let vars = UrlSyncEngine::detect_path_variables("/:id/:id/{{ id }}/{{other}}/{{open");
    assert_eq!(vars, vec!["id".to_string(), "other".to_string()]);
}

#[test]
fn bulk_text_skips_comments_and_handles_separators() {
    let parsed = UrlSyncEngine::parse_bulk_text("# note\n// also\n\nk=v\nbare\n a : b : c ");
    assert_eq!(
        parsed,
        vec![
            ("k".to_string(), "v".to_string()),
            ("bare".to_string(), "".to_string()),
            ("a".to_string(), "b : c".to_string())
        ]
    );
    let items = vec![(" ".to_string(), "x".to_string()), ("k".to_string(), " v ".to_string())];
    assert_eq!(UrlSyncEngine::serialize_bulk_text(&items), "k: v");
}

#[test]
fn header_presets() {
    let json = HeaderPresets::json();
    assert_eq!(json.len(), 2);
    assert_eq!(json[0].name, "Content-Type");
    assert_eq!(json[1].value, "application/json");
    assert_eq!(HeaderPresets::form_urlencoded()[0].value, "application/x-www-form-urlencoded");
    assert_eq!(HeaderPresets::xml()[1].name, "Accept");
}

#[test]
fn preview_bounds_unicode_and_formats_small_json() {
    assert!(preview(br#"{"ok":true}"#).contains('\n'));
    let large = "é".repeat(PREVIEW_CHARS + 1);
    assert!(preview(large.as_bytes()).contains("Preview truncated"));
}

#[test]
fn previews_keep_plain_text_and_replace_invalid_bytes() {
    assert_eq!(preview(b"plain text"), "plain text");
    assert_eq!(preview(&[0x61, 0xff, 0x62]), "a\u{fffd}b");
    let exact = "x".repeat(PREVIEW_CHARS);
    assert_eq!(preview(exact.as_bytes()), exact);
}

#[test]
fn test_simple_base64() {
    assert_eq!(simple_base64(b"hello"), "aGVsbG8=");
    assert_eq!(simple_base64(b"admin:secret"), "YWRtaW46c2VjcmV0");
}

#[test]
fn base64_pads_one_and_two_byte_tails() {
    assert_eq!(simple_base64(b""), "");
    assert_eq!(simple_base64(b"f"), "Zg==");
    assert_eq!(simple_base64(b"fo"), "Zm8=");
    assert_eq!(simple_base64(b"foo"), "Zm9v");
    assert_eq!(simple_base64(&[0xfb, 0xff]), "+/8=");
}

#[test]
fn bulk_text_written_then_read_gives_back_the_pairs() {
    let items = vec![
        ("Accept".to_string(), "application/json".to_string()),
        ("X-Empty".to_string(), String::new()),
        ("key=with=equals".to_string(), "a: b".to_string()),
        ("/single".to_string(), "v".to_string()),
    ];
    let text = UrlSyncEngine::serialize_bulk_text(&items);
    assert_eq!(text, "Accept: application/json\nX-Empty: \nkey=with=equals: a: b\n/single: v");
    assert_eq!(UrlSyncEngine::parse_bulk_text(&text), items);
}

#[test]
fn bulk_text_reaches_a_normal_form() {
    let text = "  Accept =  application/json \r\n# note\n\n// skip\nX-Flag\nHost: a.test:8080\n";
    let parsed = UrlSyncEngine::parse_bulk_text(text);
    let normal = UrlSyncEngine::serialize_bulk_text(&parsed);
    assert_eq!(normal, "Accept: application/json\nX-Flag: \nHost: a.test:8080");
    assert_eq!(UrlSyncEngine::parse_bulk_text(&normal), parsed);
}

#[test]
fn plain_urls_survive_parsing_and_building() {
    for url in [
        "https://api.test/items?page=2&sort=name&flag",
        "http://a.test/x?q=v1.2_beta-3*",
        "https://a.test/?only",
    ] {
        let (base, params) = UrlSyncEngine::parse_url(url);
        assert_eq!(UrlSyncEngine::build_url(&base, &params), url);
    }
}
