use packetsmith::ui::{Color, HttpMethodColors};

#[test]
fn method_badge_colors_ignore_case_but_not_spaces() {
    assert_eq!(HttpMethodColors::color_for_method("get"), Color::hex(0x10b981));
    assert_eq!(HttpMethodColors::color_for_method("GET"), Color::hex(0x10b981));
    assert_eq!(HttpMethodColors::color_for_method("Delete"), Color::hex(0xef4444));
    assert_eq!(HttpMethodColors::color_for_method("PURGE"), Color::hex(0x94a3b8));
    assert_eq!(HttpMethodColors::color_for_method(" GET"), Color::hex(0x94a3b8));
    for m in ["get", "pOsT", "options", "purge", "héad"] {
        assert_eq!(
            HttpMethodColors::color_for_method(m),
            HttpMethodColors::color_for_method(&m.to_uppercase())
        );
    }
}
