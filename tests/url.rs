use sb_core::Url;

#[test]
fn test_url_new() {
    let url_str = "http://example.com:8080/path?query=1".to_string();
    let url = Url::new(url_str.clone());
    assert_eq!(url.url, url_str);
    assert_eq!(url.host, "");
    assert_eq!(url.port, "");
    assert_eq!(url.path, "");
    assert_eq!(url.searchpart, "");
}

#[test]
fn test_url_parse_valid() {
    let url_str = "http://example.com:8080/path?query=1".to_string();
    let mut url = Url::new(url_str);
    let expected = Ok(Url {
        url: "http://example.com:8080/path?query=1".to_string(),
        host: "example.com".to_string(),
        port: "8080".to_string(),
        path: "path".to_string(),
        searchpart: "query=1".to_string(),
    });

    assert_eq!(url.parse(), expected);
}

#[test]
fn test_get_url() {
    let url_str = "http://example.com:8080/path?query=1".to_string();
    let url = Url::new(url_str.clone());
    assert_eq!(url.get_url(), url_str);
}

#[test]
fn test_get_host() {
    let url_str = "http://example.com:8080/path?query=1".to_string();
    let mut url = Url::new(url_str);
    url.parse().unwrap();
    assert_eq!(url.get_host(), "example.com");
}

#[test]
fn test_get_port() {
    let url_str = "http://example.com:8080/path?query=1".to_string();
    let mut url = Url::new(url_str);
    url.parse().unwrap();
    assert_eq!(url.get_port(), "8080");
}

#[test]
fn test_get_path() {
    let url_str = "http://example.com:8080/path?query=1".to_string();
    let mut url = Url::new(url_str);
    url.parse().unwrap();
    assert_eq!(url.get_path(), "path");
}

#[test]
fn test_get_searchpart() {
    let url_str = "http://example.com:8080/path?query=1".to_string();
    let mut url = Url::new(url_str);
    url.parse().unwrap();
    assert_eq!(url.get_searchpart(), "query=1");
}

#[test]
fn url_default_port_when_none_given() {
    let mut url = Url::new("http://example.com/index.html".to_string());
    let parsed = url.parse().unwrap();
    assert_eq!(parsed.host, "example.com");
    assert_eq!(parsed.port, "80");
    assert_eq!(parsed.path, "index.html");
    assert_eq!(parsed.searchpart, "");
}

#[test]
fn url_without_slash_has_empty_path() {
    let mut url = Url::new("http://localhost:8000".to_string());
    let parsed = url.parse().unwrap();
    assert_eq!(parsed.host, "localhost");
    assert_eq!(parsed.port, "8000");
    assert_eq!(parsed.path, "");
    assert_eq!(parsed.searchpart, "");
}

#[test]
fn url_splits_at_first_occurrence() {
    let mut url = Url::new("http://a:1:2/b/c?x=1?y=2".to_string());
    let parsed = url.parse().unwrap();
    assert_eq!(parsed.host, "a");
    assert_eq!(parsed.port, "1:2");
    assert_eq!(parsed.path, "b/c");
    assert_eq!(parsed.searchpart, "x=1?y=2");
}

#[test]
fn url_other_scheme_is_refused() {
    for raw in ["https://example.com/", "HTTP://example.com/", "ftp://x/", "", "http:/x"] {
        let mut url = Url::new(raw.to_string());
        assert_eq!(url.parse(), Err("Unsupported URL scheme".to_string()));
        assert_eq!(url.get_host(), "");
        assert_eq!(url.get_url(), raw);
    }
}

#[test]
fn url_scheme_is_stripped_once() {
    let mut url = Url::new("http://http://x/y".to_string());
    let parsed = url.parse().unwrap();
    assert_eq!(parsed.host, "http");
    assert_eq!(parsed.port, "");
    assert_eq!(parsed.path, "/x/y");
    assert_eq!(parsed.searchpart, "");
}

#[test]
fn url_parse_twice_gives_same_result() {
    let mut url = Url::new("http://example.com:8080/path?query=1".to_string());
    let first = url.parse();
    let second = url.parse();
    assert_eq!(first, second);
    let mut fresh = Url::new("http://example.com:8080/path?query=1".to_string());
    assert_eq!(fresh.parse(), first);
}
