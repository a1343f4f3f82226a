use saba_core::url::Url;

#[test]
fn test_url_host() {
    let url = "http://example.com".to_string();
    let res = Url::new(url).parse().expect("parse should accept the http scheme");
    assert_eq!(res.host(), "example.com".to_string());
    assert_eq!(res.port(), "80".to_string());
    assert_eq!(res.path(), "".to_string());
    assert_eq!(res.searchpart(), "".to_string());
}

#[test]
fn test_url_port() {
    let url = "http://example.com:8888".to_string();
    let res = Url::new(url).parse().expect("parse should accept the http scheme");
    assert_eq!(res.host(), "example.com".to_string());
    assert_eq!(res.port(), "8888".to_string());
    assert_eq!(res.path(), "".to_string());
    assert_eq!(res.searchpart(), "".to_string());
}

#[test]
fn test_url_host_port_path() {
    let url = "http://example.com:8888/index.html".to_string();
    let res = Url::new(url).parse().expect("parse should accept the http scheme");
    assert_eq!(res.host(), "example.com".to_string());
    assert_eq!(res.port(), "8888".to_string());
    assert_eq!(res.path(), "index.html".to_string());
    assert_eq!(res.searchpart(), "".to_string());
}

#[test]
fn test_url_host_path() {
    let url = "http://example.com/index.html".to_string();
    let res = Url::new(url).parse().expect("parse should accept the http scheme");
    assert_eq!(res.host(), "example.com".to_string());
    assert_eq!(res.port(), "80".to_string());
    assert_eq!(res.path(), "index.html".to_string());
    assert_eq!(res.searchpart(), "".to_string());
}

#[test]
fn test_url_host_port_path_searchquery() {
    let url = "http://example.com:8888/index.html?a=123&b=456".to_string();
    let res = Url::new(url).parse().expect("parse should accept the http scheme");
    assert_eq!(res.host(), "example.com".to_string());
    assert_eq!(res.port(), "8888".to_string());
    assert_eq!(res.path(), "index.html".to_string());
    assert_eq!(res.searchpart(), "a=123&b=456".to_string());
}

#[test]
fn test_no_scheme() {
    let url = "example.com".to_string();
    let expected = Err("Only HTTP scheme is supported".to_string());
    assert_eq!(expected, Url::new(url).parse());
}

#[test]
fn test_unsupported_scheme() {
    let url = "https://example.com:8888/index.html".to_string();
    let expected = Err("Only HTTP scheme is supported".to_string());
    assert_eq!(expected, Url::new(url).parse());
}

#[test]
fn test_repeated_scheme_is_stripped() {
    let url = "http://http://x/y".to_string();
    let res = Url::new(url).parse().expect("parse should accept the http scheme");
    assert_eq!(res.host(), "x".to_string());
    assert_eq!(res.port(), "80".to_string());
    assert_eq!(res.path(), "y".to_string());
}

#[test]
fn test_parse_fills_the_holder_too() {
    let url = "http://example.com:8888/i.html?q=1".to_string();
    let mut holder = Url::new(url);
    let copy = holder.parse().expect("parse should accept the http scheme");
    assert_eq!(holder.host(), copy.host());
    assert_eq!(holder.port(), copy.port());
    assert_eq!(holder.path(), copy.path());
    assert_eq!(holder.searchpart(), copy.searchpart());
}
