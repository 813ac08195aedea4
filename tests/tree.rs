use boinc_rpc::models::VersionInfo;
use boinc_rpc::text::{format_i64, format_u64, parse_bool, parse_i32, parse_i64, parse_u64, trim_text, trimmed_optional};
use boinc_rpc::tree::{any_text, parse_node, Element};

#[test]
fn test_parse_node() {
    let mut node = Element::new("root");
    let mut child = Element::new("child");
    child.text = Some("42".to_string());
    node.children.push(child);

    let result = parse_node("child", &node);
    assert_eq!(result, Some(42));
}

#[test]
fn test_parse_node_extra_children() {
    let mut node = Element::new("root");
    let mut child = Element::new("child");
    child.text = Some("42".to_string());
    node.children.push(child);
    let mut child = Element::new("child");
    child.text = Some("43".to_string());
    node.children.push(child);

    let result = parse_node("child", &node);
    assert_eq!(result, Some(43));
}

#[test]
fn later_major_wins() {
    let mut node = Element::new("server_version");
    node.push(Element::with_text("major", "7".to_string()));
    node.push(Element::with_text("minor", "16".to_string()));
    node.push(Element::with_text("major", "8".to_string()));
    let v = VersionInfo::from_element(&node);
    assert_eq!(v.major, Some(8));
    assert_eq!(v.minor, Some(16));
    assert_eq!(v.release, None);
}

#[test]
fn later_unreadable_value_clears_field() {
    let mut node = Element::new("server_version");
    node.push(Element::with_text("major", "7".to_string()));
    node.push(Element::with_text("major", "seven".to_string()));
    assert_eq!(VersionInfo::from_element(&node).major, None);
}

#[test]
fn integers_read_like_std() {
    assert_eq!(parse_i64("42"), Some(42));
    assert_eq!(parse_i64("+42"), Some(42));
    assert_eq!(parse_i64("-42"), Some(-42));
    assert_eq!(parse_i64("9223372036854775807"), Some(i64::MAX));
    assert_eq!(parse_i64("-9223372036854775808"), Some(i64::MIN));
    assert_eq!(parse_i64("9223372036854775808"), None);
    assert_eq!(parse_i64(""), None);
    assert_eq!(parse_i64("-"), None);
    assert_eq!(parse_i64(" 1"), None);
    assert_eq!(parse_i64("1.5"), None);
    assert_eq!(parse_i32("2147483648"), None);
    assert_eq!(parse_i32("-2147483648"), Some(i32::MIN));
    assert_eq!(parse_u64("18446744073709551615"), Some(u64::MAX));
    assert_eq!(parse_u64("18446744073709551616"), None);
    assert_eq!(parse_u64("-1"), None);
    assert_eq!(parse_u64("+7"), Some(7));
    for s in ["0", "17", "-3", "+9", "123456789012"] {
        assert_eq!(parse_i64(s), s.parse::<i64>().ok());
    }
}

#[test]
fn integers_format_like_std() {
    for v in [0i64, 7, -7, 10, 1234567890, i64::MAX, i64::MIN] {
        assert_eq!(format_i64(v), v.to_string());
    }
    assert_eq!(format_u64(u64::MAX), u64::MAX.to_string());
}

#[test]
fn booleans_read_exactly() {
    assert_eq!(parse_bool("true"), Some(true));
    assert_eq!(parse_bool("false"), Some(false));
    assert_eq!(parse_bool("True"), None);
    assert_eq!(parse_bool("1"), None);
}

#[test]
fn trimming_removes_white_space() {
    assert_eq!(trim_text("  a b \n\t"), "a b");
    assert_eq!(trim_text("\u{3000}x\u{a0}"), "x");
    assert_eq!(trimmed_optional(&Some(" y ".to_string())), Some("y".to_string()));
    assert_eq!(trimmed_optional(&None), None);
}

#[test]
fn raw_text_is_preferred() {
    let mut e = Element::with_text("name", "plain".to_string());
    assert_eq!(any_text(&e), Some("plain".to_string()));
    e.cdata = Some("raw".to_string());
    assert_eq!(any_text(&e), Some("raw".to_string()));
    assert_eq!(any_text(&Element::new("x")), None);
}
