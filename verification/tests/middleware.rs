use rion::middleware::{error_reply, is_method_allowed, match_rules, skips_auth, try_match_rules, AuthError};

#[test]
fn method_listed_in_lower_case_is_allowed() {
    assert!(is_method_allowed("GET", "get|post"));
    assert!(is_method_allowed("POST", "get|post"));
    assert!(is_method_allowed("DELETE", "get|post|put|delete"));
    assert!(is_method_allowed("POST", "get||post"));
}

#[test]
fn method_not_listed_is_refused() {
    assert!(!is_method_allowed("PATCH", "get|post|put|delete"));
    assert!(!is_method_allowed("get", "get"));
    assert!(!is_method_allowed("GET", ""));
    assert!(is_method_allowed("", ""));
}

#[test]
fn first_matching_rule_decides() {
    let rules = vec![
        ("^/api".to_string(), "get".to_string()),
        ("^/".to_string(), "post".to_string()),
    ];
    assert!(match_rules(&rules, "/api/x", "GET"));
    assert!(!match_rules(&rules, "/api/x", "POST"));
    assert!(match_rules(&rules, "/ping", "POST"));
    assert!(!match_rules(&rules, "ping", "POST"));
}

#[test]
fn rule_that_does_not_compile_is_reported() {
    let rules = vec![("(".to_string(), "get".to_string())];
    assert_eq!(try_match_rules(&rules, "/x", "GET"), None);
    let rules = vec![("^/".to_string(), "get".to_string()), ("(".to_string(), "get".to_string())];
    assert_eq!(try_match_rules(&rules, "/x", "GET"), Some(true));
}

#[test]
fn every_path_under_root_is_open() {
    assert_eq!(skips_auth("/api/v1/room", "GET"), Some(true));
    assert_eq!(skips_auth("/api/v1/pub/r/u", "POST"), Some(true));
    assert_eq!(skips_auth("/x", "PATCH"), Some(false));
    assert_eq!(skips_auth("x", "GET"), Some(false));
}

#[test]
fn refusals_are_forbidden() {
    assert_eq!(AuthError::InvalidHeader.status_code(), 403);
    assert_eq!(AuthError::InvalidToken.status_code(), 403);
    assert_eq!(AuthError::InvalidHeader.message(), "请求头 Authorization 不合法");
    assert_eq!(AuthError::InvalidToken.message(), "请求头 Authorization 解析错误");
}

#[test]
fn failed_requests_are_reported() {
    assert_eq!(error_reply("GET", "/ping", true, "x"), (408, "GET /ping timeout".to_string()));
    assert_eq!(error_reply("GET", "/ping", false, "boom"), (500, "`GET /ping` failed with boom".to_string()));
}
