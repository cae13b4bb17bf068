use hfi::cli::{parse_args, ArgError};
use hfi::session::{auth_body, json_escape, cookie_from_header, find_session_cookie, normalize_url, trim_str};

fn args(v: &[&str]) -> Vec<String> {
    v.iter().map(|s| s.to_string()).collect()
}

#[test]
fn normalize_adds_scheme_and_strips_slashes() {
    assert_eq!(normalize_url("host:5000/"), "http://host:5000");
    assert_eq!(normalize_url("http://host///"), "http://host");
    assert_eq!(normalize_url("https://host"), "https://host");
    assert_eq!(normalize_url(""), "http:");
}

#[test]
fn cookie_header_parsing() {
    assert_eq!(cookie_from_header("Set-Cookie: a=b\r\n").as_deref(), Some("a=b"));
    assert_eq!(cookie_from_header("set-cookie:x:y").as_deref(), Some("x:y"));
    assert_eq!(cookie_from_header("Set-Cookies: a"), None);
    assert_eq!(cookie_from_header("Set-Cookie a"), None);
    assert_eq!(cookie_from_header("X: Set-Cookie: a"), None);
}

#[test]
fn first_cookie_wins() {
    let h = args(&["Date: now", "Set-Cookie: one", "Set-Cookie: two"]);
    assert_eq!(find_session_cookie(&h).as_deref(), Some("one"));
    assert_eq!(find_session_cookie(&args(&[])), None);
}

#[test]
fn trim_matches_std() {
    for s in ["  a b \t", "\u{3000}x\u{85}", "", "   ", "q"] {
        assert_eq!(trim_str(s), s.trim());
    }
}

#[test]
fn auth_body_is_json() {
    assert_eq!(auth_body("pw"), r#"{"password": "pw"}"#);
    assert_eq!(auth_body(r#"a","x":"1"#), r#"{"password": "a\",\"x\":\"1"}"#);
}

#[test]
fn json_escape_rules() {
    assert_eq!(json_escape("plain é"), "plain é");
    assert_eq!(json_escape("q\"b\\s"), "q\\\"b\\\\s");
    assert_eq!(json_escape("\n\u{1f}\u{0}"), "\\u000a\\u001f\\u0000");
    assert_eq!(json_escape(""), "");
}

#[test]
fn parse_args_accepts_all_flags() {
    let r = parse_args(&args(&["--server-url", "u", "--debug", "--server-password", "p"]));
    match r {
        Ok(c) => {
            assert_eq!(c.server_url, "u");
            assert_eq!(c.server_password, "p");
            assert!(c.debug);
        }
        Err(_) => panic!("expected success"),
    }
}

#[test]
fn parse_args_errors() {
    assert!(matches!(parse_args(&args(&["--server-password", "p"])), Err(ArgError::MissingServerUrl)));
    assert!(matches!(parse_args(&args(&["--server-url", "u"])), Err(ArgError::MissingServerPassword)));
    assert!(matches!(
        parse_args(&args(&["--server-url", "u", "--server-password"])),
        Err(ArgError::MissingServerPassword)
    ));
    match parse_args(&args(&["--server-url", "u", "-x"])) {
        Err(ArgError::UnknownArgument(a)) => assert_eq!(a, "-x"),
        _ => panic!("expected unknown argument"),
    }
}
