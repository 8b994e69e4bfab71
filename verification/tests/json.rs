use packetsmith::json::{parse_index, resolve_json_path};

fn path(p: &str) -> Vec<char> {
    p.chars().collect()
}

#[test]
fn json_paths_select_members_and_elements() {
    let doc = r#"{"profile":{"id":"u-1","tags":["a","b"]},"items":[10,20,{"k":true}]}"#;
    assert_eq!(resolve_json_path(doc, &path("profile.id")).as_deref(), Some("u-1"));
    assert_eq!(resolve_json_path(doc, &path("items.1")).as_deref(), Some("20"));
    assert_eq!(resolve_json_path(doc, &path("items.+1")).as_deref(), Some("20"));
    assert_eq!(resolve_json_path(doc, &path("items.2.k")).as_deref(), Some("true"));
    assert_eq!(resolve_json_path(doc, &path("profile.tags")).as_deref(), Some(r#"["a","b"]"#));
    assert_eq!(resolve_json_path(doc, &path("items.3")), None);
    assert_eq!(resolve_json_path(doc, &path("items.-1")), None);
    assert_eq!(resolve_json_path(doc, &path("profile.missing")), None);
    assert_eq!(resolve_json_path("not json", &path("a")), None);
}

#[test]
fn index_segments_read_as_usize_does() {
    assert_eq!(parse_index(&path("0")), Some(0));
    assert_eq!(parse_index(&path("+7")), Some(7));
    assert_eq!(parse_index(&path("42")), Some(42));
    assert_eq!(parse_index(&path("")), None);
    assert_eq!(parse_index(&path("+")), None);
    assert_eq!(parse_index(&path("-1")), None);
    assert_eq!(parse_index(&path("1a")), None);
    assert_eq!(parse_index(&path("99999999999999999999999")), None);
    assert_eq!(parse_index(&path(&usize::MAX.to_string())), Some(usize::MAX));
}
