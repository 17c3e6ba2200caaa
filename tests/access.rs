use pinrs::auth::{is_authorized, strip_prefix, token_from_header};

#[test]
fn token_scheme_is_accepted() {
    assert!(is_authorized(Some("Token abc"), "abc"));
    assert!(!is_authorized(Some("Token 123"), "abc"));
}

#[test]
fn bearer_scheme_is_accepted() {
    assert!(is_authorized(Some("Bearer abc"), "abc"));
    assert!(!is_authorized(Some("Bearer 123"), "abc"));
}

#[test]
fn missing_or_bare_header_is_refused() {
    assert!(!is_authorized(None, "abc"));
    assert!(!is_authorized(Some("abc"), "abc"));
    assert!(!is_authorized(Some("token abc"), "abc"));
    assert!(!is_authorized(Some("Token"), ""));
    assert!(is_authorized(Some("Token "), ""));
}

#[test]
fn header_token_extraction() {
    assert_eq!(token_from_header("Token x y"), Some("x y".to_string()));
    assert_eq!(token_from_header("Bearer z"), Some("z".to_string()));
    assert_eq!(token_from_header("Basic z"), None);
    assert_eq!(strip_prefix("héllo", "hé"), Some("llo".to_string()));
    assert_eq!(strip_prefix("he", "hello"), None);
}
