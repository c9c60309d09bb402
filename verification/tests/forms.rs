//! The form decoding layer: urlencoded bodies, numbers, and the color rule.

use tasktrack::form::{form_value, is_valid_color, parse_label_form, parse_task_update};
use tasktrack::strutil::{i32_to_string, parse_i32};

#[test]
fn form_value_decodes_plus_as_space() {
    assert_eq!(form_value("name=test+task", "name"), Some("test task".to_string()));
}

#[test]
fn form_value_decodes_percent_escapes() {
    assert_eq!(form_value("name=a%20b%21", "name"), Some("a b!".to_string()));
    assert_eq!(form_value("name=%41%62c", "name"), Some("Abc".to_string()));
}

#[test]
fn form_value_assembles_multibyte_escapes() {
    assert_eq!(form_value("name=caf%C3%A9", "name"), Some("caf\u{e9}".to_string()));
    assert_eq!(form_value("name=%E2%82%AC", "name"), Some("\u{20ac}".to_string()));
    assert_eq!(form_value("name=%F0%9F%A6%80", "name"), Some("\u{1f980}".to_string()));
    // Characters outside the ASCII range also pass through unescaped.
    assert_eq!(form_value("name=caf\u{e9}", "name"), Some("caf\u{e9}".to_string()));
}

#[test]
fn form_value_rejects_malformed_escapes() {
    assert_eq!(form_value("name=%zz", "name"), None);
    assert_eq!(form_value("name=%4", "name"), None);
    // A stray continuation byte leads no encoding.
    assert_eq!(form_value("name=%A9", "name"), None);
    // A truncated or interrupted cluster.
    assert_eq!(form_value("name=%C3", "name"), None);
    assert_eq!(form_value("name=%C3x", "name"), None);
    assert_eq!(form_value("name=%C3\u{e9}", "name"), None);
    // An overlong encoding, a surrogate, and a value past the last scalar.
    assert_eq!(form_value("name=%C0%80", "name"), None);
    assert_eq!(form_value("name=%ED%A0%80", "name"), None);
    assert_eq!(form_value("name=%F4%90%80%80", "name"), None);
}

#[test]
fn form_value_missing_key_is_none() {
    assert_eq!(form_value("", "name"), None);
    assert_eq!(form_value("color=#123456", "name"), None);
    assert_eq!(form_value("names=x", "name"), None);
}

#[test]
fn form_value_first_pair_wins() {
    assert_eq!(form_value("name=a&name=b", "name"), Some("a".to_string()));
}

#[test]
fn form_value_empty_value_and_no_equals() {
    assert_eq!(form_value("name=", "name"), Some(String::new()));
    assert_eq!(form_value("name", "name"), Some(String::new()));
    assert_eq!(form_value("a=1&name=v&b=2", "name"), Some("v".to_string()));
}

#[test]
fn parse_i32_accepts_plain_numbers() {
    assert_eq!(parse_i32("42"), Some(42));
    assert_eq!(parse_i32("-7"), Some(-7));
    assert_eq!(parse_i32("+8"), Some(8));
    assert_eq!(parse_i32("007"), Some(7));
    assert_eq!(parse_i32("0"), Some(0));
}

#[test]
fn parse_i32_handles_the_range_ends() {
    assert_eq!(parse_i32("2147483647"), Some(i32::MAX));
    assert_eq!(parse_i32("2147483648"), None);
    assert_eq!(parse_i32("-2147483648"), Some(i32::MIN));
    assert_eq!(parse_i32("-2147483649"), None);
    assert_eq!(parse_i32("99999999999999999999"), None);
}

#[test]
fn parse_i32_rejects_junk() {
    assert_eq!(parse_i32(""), None);
    assert_eq!(parse_i32("-"), None);
    assert_eq!(parse_i32("+"), None);
    assert_eq!(parse_i32("12x"), None);
    assert_eq!(parse_i32(" 12"), None);
}

#[test]
fn color_rule_accepts_hash_and_six_hex_digits() {
    assert!(is_valid_color("#123456"));
    assert!(is_valid_color("#abcdef"));
    assert!(is_valid_color("#ABCDEF"));
    assert!(is_valid_color("#aAbB09"));
}

#[test]
fn color_rule_anchors_at_the_end_only() {
    // The pattern may match anywhere as long as it ends the string.
    assert!(is_valid_color("xyz#aabbcc"));
    assert!(!is_valid_color("#aabbccz"));
}

#[test]
fn color_rule_rejects_wrong_lengths_and_digits() {
    assert!(!is_valid_color(""));
    assert!(!is_valid_color("red"));
    assert!(!is_valid_color("#12345"));
    assert!(!is_valid_color("#1234567"));
    assert!(!is_valid_color("#12345g"));
    assert!(!is_valid_color("123456"));
}

#[test]
fn task_update_form_reads_optional_label_id() {
    let f = parse_task_update("name=a&description=b&updated_at=c&label_id=5").unwrap();
    assert_eq!(f.label_id, Some(5));
    let f = parse_task_update("name=a&description=b&updated_at=c&label_id=").unwrap();
    assert_eq!(f.label_id, None);
    let f = parse_task_update("name=a&description=b&updated_at=c&label_id=abc").unwrap();
    assert_eq!(f.label_id, None);
    let f = parse_task_update("name=a&description=b&updated_at=c").unwrap();
    assert_eq!(f.label_id, None);
    assert_eq!(f.name, "a");
    assert_eq!(f.description, "b");
    assert_eq!(f.updated_at, "c");
}

#[test]
fn task_update_form_requires_its_fields() {
    assert!(parse_task_update("").is_none());
    assert!(parse_task_update("description=hello").is_none());
    assert!(parse_task_update("name=a&description=b").is_none());
}

#[test]
fn label_form_requires_both_fields() {
    assert!(parse_label_form("name=mylabel").is_none());
    assert!(parse_label_form("color=#123456").is_none());
    let f = parse_label_form("name=mylabel&color=#123456").unwrap();
    assert_eq!(f.name, "mylabel");
    assert_eq!(f.color, "#123456");
}

#[test]
fn decimal_rendering_matches_the_usual_text() {
    assert_eq!(i32_to_string(0), "0");
    assert_eq!(i32_to_string(7), "7");
    assert_eq!(i32_to_string(120), "120");
    assert_eq!(i32_to_string(-45), "-45");
    assert_eq!(i32_to_string(i32::MAX), "2147483647");
    assert_eq!(i32_to_string(i32::MIN), "-2147483648");
}
