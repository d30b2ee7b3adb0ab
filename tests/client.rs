use sb_core::{Error, HttpClient};

#[test]
fn request_text_is_exact() {
    let client = HttpClient::new();
    let req = client.create_request("GET".to_string(), "example.com".to_string(), "index.html".to_string());
    assert_eq!(
        req,
        "GET /index.html HTTP/1.1\r\nHost: example.com\nAccept: text/html\nConnection: close\n\n"
    );
}

#[test]
fn request_with_empty_path() {
    let client = HttpClient::new();
    let req = client.create_request("GET".to_string(), "h".to_string(), String::new());
    assert!(req.starts_with("GET / HTTP/1.1\r\nHost: h\n"));
}

#[test]
fn response_from_utf8_bytes() {
    let client = HttpClient::new();
    let bytes = "HTTP/1.1 200 OK\nContent-Type: text/html\n\n<p>é</p>".as_bytes().to_vec();
    let res = client.response_from_bytes(bytes).unwrap();
    assert_eq!(res.status_code(), 200);
    assert_eq!(res.header_value("Content-Type"), Ok("text/html".to_string()));
    assert_eq!(res.body(), "<p>é</p>");
}

#[test]
fn response_from_invalid_utf8_fails() {
    let client = HttpClient::new();
    let bytes = vec![b'H', b'\n', 0xff, 0xfe];
    assert_eq!(
        client.response_from_bytes(bytes).unwrap_err(),
        Error::Network("Failed to parse HTTP response".to_string())
    );
    assert_eq!(
        client.response_from_bytes(b"no newline".to_vec()).unwrap_err(),
        Error::Network("Invalid HTTP response: no newline".to_string())
    );
}
