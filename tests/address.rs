use cobalt::address::{parse_subnet_template, resolve, Ipv4Address};
use cobalt::text::{contains_text, decimal_text};

#[test]
fn resolve_replaces_placeholder_with_host_octet() {
    let ip = resolve("10.0.1.x", 5).unwrap();
    assert_eq!(ip, Ipv4Address { a: 10, b: 0, c: 1, d: 5 });
    assert_eq!(ip.to_text(), "10.0.1.5");
}

#[test]
fn resolve_every_host_octet() {
    for h in 0..=255u8 {
        let ip = resolve("10.65.3.x", h).unwrap();
        assert_eq!(ip.to_text(), format!("10.65.3.{}", h));
    }
}

#[test]
fn resolve_placeholder_in_other_position() {
    let ip = resolve("x.20.30.40", 255).unwrap();
    assert_eq!(ip.to_text(), "255.20.30.40");
}

#[test]
fn invalid_templates_are_refused() {
    assert!(resolve("not.an.ip.x", 1).is_none());
    assert!(resolve("10.0.1.2", 1).is_none());
    assert!(resolve("10.x.x.1", 1).is_none());
    assert!(resolve("1x.0.0.1", 1).is_none());
    assert!(resolve("10.0.01.x", 1).is_none());
    assert!(resolve("10.0.256.x", 1).is_none());
    assert!(resolve("10.0.1.x.5", 1).is_none());
    assert!(resolve("", 1).is_none());
    assert!(parse_subnet_template("10.0.1").is_none());
}

#[test]
fn template_fields_are_parsed() {
    let t = parse_subnet_template("192.168.0.x").unwrap();
    assert_eq!(t.fields, vec![Some(192), Some(168), Some(0), None]);
}

#[test]
fn decimal_text_of_numbers() {
    assert_eq!(decimal_text(0), "0");
    assert_eq!(decimal_text(7), "7");
    assert_eq!(decimal_text(120), "120");
    assert_eq!(decimal_text(u64::MAX), u64::MAX.to_string());
}

#[test]
fn substring_search() {
    assert!(contains_text("Service OK", "OK"));
    assert!(!contains_text("Service DOWN", "OK"));
    assert!(contains_text("abc", ""));
    assert!(!contains_text("", "a"));
    assert!(contains_text("aab", "ab"));
}
