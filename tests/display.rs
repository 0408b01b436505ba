use cargo_insta::sort_key::sort_key;
use cargo_insta::summary::render_summary;

#[test]
fn sort_key_orders_numeric_suffixes() {
    let a = sort_key("foo-9");
    let b = sort_key("foo-10");
    assert_eq!(a, ("foo".to_string(), 9));
    assert_eq!(b, ("foo".to_string(), 10));
    assert!(a < b);
}

#[test]
fn sort_key_of_plain_name() {
    assert_eq!(sort_key("plainname"), ("plainname".to_string(), 0));
}

#[test]
fn sort_key_edge_cases() {
    assert_eq!(sort_key("42"), ("".to_string(), 42));
    assert_eq!(sort_key("a-b-7"), ("a-b".to_string(), 7));
    assert_eq!(sort_key("x-"), ("x-".to_string(), 0));
    assert_eq!(sort_key("x--5"), ("x-".to_string(), 5));
    assert_eq!(sort_key("a-+3"), ("a".to_string(), 3));
    assert_eq!(sort_key("a-1x"), ("a-1x".to_string(), 0));
    assert_eq!(sort_key("a-9223372036854775807"), ("a".to_string(), i64::MAX));
    assert_eq!(sort_key("a--9223372036854775808"), ("a--9223372036854775808".to_string(), 0));
    assert_eq!(sort_key("a-9223372036854775808"), ("a-9223372036854775808".to_string(), 0));
    assert_eq!(sort_key(""), ("".to_string(), 0));
    assert_eq!(sort_key("é-3"), ("é".to_string(), 3));
}

#[test]
fn summary_with_all_parts() {
    assert_eq!(render_summary(Some("src/lib.rs"), Some(42), Some("name")), "src/lib.rs:42 (name)");
}

#[test]
fn summary_omits_absent_parts() {
    assert_eq!(render_summary(None, None, None), "");
    assert_eq!(render_summary(Some("tests/a.rs"), None, None), "tests/a.rs");
    assert_eq!(render_summary(None, Some(0), None), ":0");
    assert_eq!(render_summary(None, None, Some("snap")), " (snap)");
    assert_eq!(render_summary(Some("s.rs"), Some(4294967295), None), "s.rs:4294967295");
}
