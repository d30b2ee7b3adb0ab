use sb_core::{Error, HttpResponse};

#[test]
fn test_status_line_only() {
    let raw = "HTTP/1.1 200 OK\n\n".to_string();
    let res = HttpResponse::new(raw).expect("Invalid HTTP response");

    assert_eq!(res.version(), "HTTP/1.1");
    assert_eq!(res.status_code(), 200);
    assert_eq!(res.reason(), "OK");
}

#[test]
fn test_one_header() {
    let raw = "HTTP/1.1 200 OK\nDate:xx xx xx\n\n".to_string();
    let res = HttpResponse::new(raw).expect("Invalid HTTP response");

    assert_eq!(res.version(), "HTTP/1.1");
    assert_eq!(res.status_code(), 200);
    assert_eq!(res.reason(), "OK");

    assert_eq!(res.header_value("Date"), Ok("xx xx xx".to_string()));
}

#[test]
fn test_two_headers_with_white_space() {
    let raw = "HTTP/1.1 200 OK\nDate: xx xx xx\nContent-Length: 42\n\n".to_string();
    let res = HttpResponse::new(raw).expect("Invalid HTTP response");

    assert_eq!(res.version(), "HTTP/1.1");
    assert_eq!(res.status_code(), 200);
    assert_eq!(res.reason(), "OK");

    assert_eq!(res.header_value("Date"), Ok("xx xx xx".to_string()));
    assert_eq!(res.header_value("Content-Length"), Ok("42".to_string()));
}

#[test]
fn test_body() {
    let raw = "HTTP/1.1 200 OK\nDate: xx xx xx\n\nbody message".to_string();
    let res = HttpResponse::new(raw).expect("Invalid HTTP response");

    assert_eq!(res.version(), "HTTP/1.1");
    assert_eq!(res.status_code(), 200);
    assert_eq!(res.reason(), "OK");

    assert_eq!(res.header_value("Date"), Ok("xx xx xx".to_string()));

    assert_eq!(res.body(), "body message".to_string());
}

#[test]
fn test_invalid() {
    let raw = "HTTP/1.1 200 OK".to_string();
    assert!(HttpResponse::new(raw).is_err());
}

#[test]
fn status_line_with_blank_line_has_empty_body() {
    let res = HttpResponse::new("HTTP/1.1 200 OK\n\n".to_string()).unwrap();
    assert_eq!(res.version(), "HTTP/1.1");
    assert_eq!(res.status_code(), 200);
    assert_eq!(res.reason(), "OK");
    assert_eq!(res.body(), "");
    assert!(res.header_value("Date").is_err());
}

#[test]
fn blank_line_after_status_line_starts_body() {
    let res = HttpResponse::new("HTTP/1.1 200 OK\n\nA: 1\n\nrest".to_string()).unwrap();
    assert!(res.header_value("A").is_err());
    assert_eq!(res.body(), "A: 1\n\nrest");
}

#[test]
fn absent_header_message_is_case_sensitive() {
    let res = HttpResponse::new("HTTP/1.1 200 OK\nDate: xx xx xx\n\n".to_string()).unwrap();
    assert_eq!(res.header_value("date"), Err("Header date not found".to_string()));
}

#[test]
fn two_headers_and_body() {
    let raw = "HTTP/1.1 200 OK\nDate: xx xx xx\nContent-Length: 42\n\nbody message";
    let res = HttpResponse::new(raw.to_string()).unwrap();
    assert_eq!(res.header_value("Date"), Ok("xx xx xx".to_string()));
    assert_eq!(res.header_value("Content-Length"), Ok("42".to_string()));
    assert_eq!(res.body(), "body message");
}

#[test]
fn missing_newline_is_network_error() {
    let err = HttpResponse::new("HTTP/1.1 200 OK".to_string()).unwrap_err();
    assert_eq!(err, Error::Network("Invalid HTTP response: HTTP/1.1 200 OK".to_string()));
    assert!(HttpResponse::new(String::new()).is_err());
    assert!(HttpResponse::new("  \t ".to_string()).is_err());
}

#[test]
fn absent_header_is_not_found() {
    let res = HttpResponse::new("HTTP/1.1 200 OK\nDate: x\n\n".to_string()).unwrap();
    assert_eq!(res.header_value("Server"), Err("Header Server not found".to_string()));
    assert!(res.header_value("date").is_err());
    assert!(res.header_value("").is_err());
}

#[test]
fn first_of_duplicate_headers_wins() {
    let res = HttpResponse::new("HTTP/1.1 200 OK\nA: 1\nA: 2\n\n".to_string()).unwrap();
    assert_eq!(res.header_value("A"), Ok("1".to_string()));
}

#[test]
fn non_numeric_code_reads_as_404() {
    let res = HttpResponse::new("HTTP/1.1 abc OK\n\n".to_string()).unwrap();
    assert_eq!(res.status_code(), 404);
    assert_eq!(res.reason(), "OK");
    let res = HttpResponse::new("HTTP/1.1 99999999999 Big\n\n".to_string()).unwrap();
    assert_eq!(res.status_code(), 404);
    let res = HttpResponse::new("HTTP/1.1 -1 X\n\n".to_string()).unwrap();
    assert_eq!(res.status_code(), 404);
    let res = HttpResponse::new("HTTP/1.1\n\n".to_string()).unwrap();
    assert_eq!(res.status_code(), 404);
    assert_eq!(res.reason(), "");
}

#[test]
fn plus_sign_and_largest_code() {
    let res = HttpResponse::new("HTTP/1.1 +301 Moved\n\n".to_string()).unwrap();
    assert_eq!(res.status_code(), 301);
    let res = HttpResponse::new("HTTP/1.1 4294967295 Max\n\n".to_string()).unwrap();
    assert_eq!(res.status_code(), 4294967295);
    let res = HttpResponse::new("HTTP/1.1 4294967296 Over\n\n".to_string()).unwrap();
    assert_eq!(res.status_code(), 404);
}

#[test]
fn reason_keeps_first_word_only() {
    let res = HttpResponse::new("HTTP/1.1 404 Not Found\n\n".to_string()).unwrap();
    assert_eq!(res.status_code(), 404);
    assert_eq!(res.reason(), "Not");
}

#[test]
fn leading_whitespace_and_swapped_crlf() {
    let raw = "  \r\nHTTP/1.0 302 Found\n\rLocation: /x\n\r\n\rhello\n\rworld";
    let res = HttpResponse::new(raw.to_string()).unwrap();
    assert_eq!(res.version(), "HTTP/1.0");
    assert_eq!(res.status_code(), 302);
    assert_eq!(res.reason(), "Found");
    assert_eq!(res.header_value("Location"), Ok("/x".to_string()));
    assert_eq!(res.body(), "hello\nworld");
}

#[test]
fn no_blank_line_means_all_body() {
    let res = HttpResponse::new("HTTP/1.1 200 OK\nDate: x\nbody".to_string()).unwrap();
    assert!(res.header_value("Date").is_err());
    assert_eq!(res.body(), "Date: x\nbody");
}

#[test]
fn header_line_without_colon_is_all_name() {
    let res = HttpResponse::new("HTTP/1.1 200 OK\n  Odd  \nK:  v : w \n\nb".to_string()).unwrap();
    assert_eq!(res.header_value("Odd"), Ok(String::new()));
    assert_eq!(res.header_value("K"), Ok("v : w".to_string()));
    assert_eq!(res.body(), "b");
}

#[test]
fn parse_is_repeatable() {
    let raw = "HTTP/1.1 200 OK\nA: 1\n\nbody";
    let a = HttpResponse::new(raw.to_string()).unwrap();
    let b = HttpResponse::new(raw.to_string()).unwrap();
    assert_eq!(format!("{:?}", a), format!("{:?}", b));
}
