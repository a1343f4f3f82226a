use saba_core::http::HttpResponse;

#[test]
fn test_status_line_only() {
    let raw = "HTTP/1.1 200 OK\n".to_string();
    let res = HttpResponse::new(raw).expect("Failed to parse http response");
    assert_eq!(res.version(), "HTTP/1.1");
    assert_eq!(res.status_code(), 200);
    assert_eq!(res.reason(), "OK");
    assert_eq!(res.headers().len(), 0);
}

#[test]
fn test_one_header() {
    let raw = "HTTP/1.1 200 OK\nDate: Mon, 04 Aug 2025 00:00:00 GMT\n\n".to_string();
    let res = HttpResponse::new(raw).expect("Failed to parse http response");
    assert_eq!(res.version(), "HTTP/1.1");
    assert_eq!(res.status_code(), 200);
    assert_eq!(res.reason(), "OK");
    assert_eq!(res.headers().len(), 1);

    assert_eq!(
        res.header_value("Date").unwrap(),
        "Mon, 04 Aug 2025 00:00:00 GMT"
    );
}

#[test]
fn test_two_headers_with_white_space() {
    let raw = "HTTP/1.1 200 OK\nDate: Mon, 04 Aug 2025 00:00:00 GMT\nContent-length:42\n\n"
        .to_string();
    let res = HttpResponse::new(raw).expect("Failed to parse http response");
    assert_eq!(res.version(), "HTTP/1.1");
    assert_eq!(res.status_code(), 200);
    assert_eq!(res.reason(), "OK");
    assert_eq!(res.headers().len(), 2);
    assert_eq!(
        res.header_value("Date").unwrap(),
        "Mon, 04 Aug 2025 00:00:00 GMT"
    );
    assert_eq!(res.header_value("Content-length").unwrap(), "42".to_string());
}

#[test]
fn test_body() {
    let raw = "HTTP/1.1 200 OK\n\nHello, World!".to_string();
    let res = HttpResponse::new(raw).expect("Failed to parse http response");
    assert_eq!(res.version(), "HTTP/1.1");
    assert_eq!(res.status_code(), 200);
    assert_eq!(res.reason(), "OK");
    assert_eq!(res.headers().len(), 0);
    assert_eq!(res.body(), "Hello, World!".to_string());
}

#[test]
fn test_invalid() {
    let raw = "Invalid HTTP response".to_string();

    assert!(HttpResponse::new(raw).is_err());
}

#[test]
fn test_status_line_with_too_few_words() {
    let raw = "HTTP/1.1 200\n".to_string();
    assert!(HttpResponse::new(raw).is_err());
}

#[test]
fn test_unreadable_status_code_falls_back_to_404() {
    let raw = "HTTP/1.1 abc OK\n".to_string();
    let res = HttpResponse::new(raw).expect("Failed to parse http response");
    assert_eq!(res.status_code(), 404);
}

#[test]
fn test_status_code_overflow_falls_back_to_404() {
    let raw = "HTTP/1.1 99999999999 OK\n".to_string();
    let res = HttpResponse::new(raw).expect("Failed to parse http response");
    assert_eq!(res.status_code(), 404);
}

#[test]
fn test_status_code_with_plus_sign() {
    let raw = "HTTP/1.1 +200 OK\n".to_string();
    let res = HttpResponse::new(raw).expect("Failed to parse http response");
    assert_eq!(res.status_code(), 200);
}

#[test]
fn test_crlf_line_endings() {
    let raw = "HTTP/1.1 200 OK\r\nDate: today\r\n\r\nbody text".to_string();
    let res = HttpResponse::new(raw).expect("Failed to parse http response");
    assert_eq!(res.status_code(), 200);
    assert_eq!(res.headers().len(), 1);
    assert_eq!(res.header_value("Date").unwrap(), "today");
    assert_eq!(res.body(), "body text");
}

#[test]
fn test_header_value_not_found() {
    let raw = "HTTP/1.1 200 OK\n".to_string();
    let res = HttpResponse::new(raw).expect("Failed to parse http response");
    assert_eq!(
        res.header_value("Date"),
        Err("Header Date not found".to_string())
    );
}

#[test]
fn test_header_lines_without_colon_are_skipped() {
    let raw = "HTTP/1.1 200 OK\nGood: yes\nnocolonhere\n\nbody".to_string();
    let res = HttpResponse::new(raw).expect("Failed to parse http response");
    assert_eq!(res.headers().len(), 1);
    assert_eq!(res.header_value("Good").unwrap(), "yes");
    assert_eq!(res.body(), "body");
}
