use capsule_runtime::text::{decimal_text, replace_text, trim_chars, chars_of, parse_u64_chars};

#[test]
fn replace_text_replaces_every_occurrence() {
    assert_eq!(replace_text("a'b'c", "'", "'\\''"), "a'\\''b'\\''c");
    assert_eq!(replace_text("http://127.0.0.1:8080", "127.0.0.1", "host.docker.internal"), "http://host.docker.internal:8080");
}

#[test]
fn trim_removes_unicode_whitespace() {
    let v = chars_of("\u{3000} key\t\n");
    let t: String = trim_chars(&v).into_iter().collect();
    assert_eq!(t, "key");
}

#[test]
fn parse_u64_follows_from_str() {
    let p = |s: &str| parse_u64_chars(&chars_of(s));
    assert_eq!(p("4096"), Some(4096));
    assert_eq!(p("+7"), Some(7));
    assert_eq!(p(""), None);
    assert_eq!(p("+"), None);
    assert_eq!(p("-1"), None);
    assert_eq!(p("12a"), None);
    assert_eq!(p("18446744073709551615"), Some(u64::MAX));
    assert_eq!(p("18446744073709551616"), None);
    for s in ["0", "+15", "x", "99999999999999999999", " 1"] {
        assert_eq!(p(s), s.parse::<u64>().ok());
    }
}

#[test]
fn decimal_text_matches_to_string() {
    for n in [0u64, 7, 10, 60, 404, u64::MAX] {
        assert_eq!(decimal_text(n), n.to_string());
    }
}

