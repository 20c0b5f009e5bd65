use cobalt::address::Ipv4Address;
use cobalt::checks::{
    check_page_response, command_verdict, get_check_result_errors, internal_failure, page_url,
    page_verdict, timeout_error, CheckError,
};
use cobalt::checks::{http_after, http_first, HttpStep};
use cobalt::config::{Http, HttpInner};

fn page(contains: Option<&str>, contains_regex: Option<&str>) -> HttpInner {
    HttpInner {
        method: "GET".to_string(),
        path: "/".to_string(),
        headers: None,
        body: None,
        contains: contains.map(|s| s.to_string()),
        contains_regex: contains_regex.map(|s| s.to_string()),
    }
}

#[test]
fn timeout_messages() {
    let e = timeout_error(1);
    assert_eq!(e.short, "Timed out");
    assert_eq!(e.long, "Timed out after 1 seconds");
    assert_eq!(timeout_error(30).long, "Timed out after 30 seconds");
}

#[test]
fn content_assertion_passes_and_fails() {
    let p = page(Some("OK"), None);
    assert!(check_page_response(&p, &Ok("Service OK".to_string())).is_ok());
    let e = check_page_response(&p, &Ok("Service DOWN".to_string())).unwrap_err();
    assert_eq!(e.short, "Content mismatch");
    assert_eq!(e.long, "Content mismatch: expected 'OK', got 'Service DOWN'");
    let t = check_page_response(&p, &Err("connection refused".to_string())).unwrap_err();
    assert_eq!(t.short, "Request failed");
    assert_eq!(t.long, "connection refused");
    assert_ne!(e.short, t.short);
}

#[test]
fn page_without_assertions_passes() {
    assert!(check_page_response(&page(None, None), &Ok(String::new())).is_ok());
}

#[test]
fn regex_assertion() {
    let p = page(None, Some("^Service (OK|UP)$"));
    assert!(check_page_response(&p, &Ok("Service UP".to_string())).is_ok());
    let e = check_page_response(&p, &Ok("Service DOWN".to_string())).unwrap_err();
    assert_eq!(e.short, "Content mismatch");
    assert_eq!(
        e.long,
        "Content mismatch: expected a match of '^Service (OK|UP)$', got 'Service DOWN'"
    );
    let bad = page(None, Some("foo("));
    let e = check_page_response(&bad, &Ok("foo(".to_string())).unwrap_err();
    assert_eq!(e.short, "Invalid pattern");
    assert_eq!(e.long, "Invalid pattern: 'foo('");
}

#[test]
fn verdict_order_text_before_pattern() {
    let p = page(Some("OK"), Some("x"));
    let e = page_verdict(&p, &Ok("nothing".to_string()), Some(true)).unwrap_err();
    assert_eq!(e.short, "Content mismatch");
    assert!(page_verdict(&p, &Ok("OK".to_string()), Some(true)).is_ok());
    assert_eq!(page_verdict(&p, &Ok("OK".to_string()), None).unwrap_err().short, "Invalid pattern");
}

#[test]
fn command_outcomes() {
    assert!(command_verdict("true", 0, "").is_ok());
    let e = command_verdict("ls /nope", 2, "no such file").unwrap_err();
    assert_eq!(e.short, "command failed");
    assert_eq!(
        e.long,
        "command 'ls /nope' failed with nonzero exit code: '2' (output: 'no such file')"
    );
    let n = command_verdict("x", -1, "").unwrap_err();
    assert_eq!(n.long, "command 'x' failed with nonzero exit code: '-1' (output: '')");
}

#[test]
fn result_messages() {
    assert_eq!(get_check_result_errors(&Ok(())), (String::new(), String::new()));
    let e = CheckError::new("short".to_string(), "long".to_string());
    assert_eq!(e.errors(), ("short".to_string(), "long".to_string()));
    assert_eq!(
        get_check_result_errors(&Err(e)),
        ("short".to_string(), "long".to_string())
    );
    let i = internal_failure("handshake failed".to_string());
    assert_eq!(i.short, "Internal server error");
    assert_eq!(i.long, "handshake failed");
}

#[test]
fn url_of_page() {
    let ip = Ipv4Address { a: 10, b: 0, c: 1, d: 5 };
    assert_eq!(page_url(&ip, "/index.html"), "http://10.0.1.5/index.html");
}

#[test]
fn http_pages_stop_at_first_failure() {
    let http = Http { pages: vec![page(Some("OK"), None), page(None, None)] };
    assert!(matches!(http_first(&http), HttpStep::Request { page: 0 }));
    assert!(matches!(http_after(&http, 0, Ok(())), HttpStep::Request { page: 1 }));
    assert!(matches!(http_after(&http, 1, Ok(())), HttpStep::Done { result: Ok(()) }));
    let failed = check_page_response(&http.pages[0], &Ok("DOWN".to_string()));
    match http_after(&http, 0, failed) {
        HttpStep::Done { result: Err(e) } => assert_eq!(e.short, "Content mismatch"),
        other => panic!("unexpected: {:?}", other),
    }
    let empty = Http { pages: vec![] };
    assert!(matches!(http_first(&empty), HttpStep::Done { result: Ok(()) }));
}
