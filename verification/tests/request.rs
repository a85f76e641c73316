use axum::http::{HeaderMap, HeaderValue};
use js_cgi::headers::{header, headers_to_map};
use js_cgi::request::{
    build_server_request, get_local_ip, protocol_name, request_with_body, split_host, ClientAddr,
    HttpVersion, ServerEnv,
};
use js_cgi::scripts::ServerRequest;
use js_cgi::string_map::StringMap;

fn no_env() -> ServerEnv {
    ServerEnv { user: None, username: None, home: None, userprofile: None, local_ip: None }
}

fn client() -> ClientAddr {
    ClientAddr { ip: "10.0.0.9".to_string(), port: 5123 }
}

fn build(headers: &HeaderMap, body: Option<Vec<u8>>) -> ServerRequest {
    build_server_request(
        "POST".to_string(),
        "/a.html",
        headers,
        StringMap::new(),
        client(),
        HttpVersion::Http11,
        body,
        no_env(),
    )
}

#[test]
fn a_request_without_headers() {
    let r = build(&HeaderMap::new(), Some("hé".as_bytes().to_vec()));
    assert_eq!(r.method, "POST");
    assert_eq!(r.url, "/a.html");
    assert_eq!(r.body, "hé");
    assert_eq!(r.content_length, 3);
    assert_eq!(r.content_type, "text/plain");
    assert_eq!(r.server_name, "localhost");
    assert_eq!(r.server_port, 3000);
    assert!(!r.is_https);
    assert_eq!(r.protocol, "HTTP/1.1");
    assert_eq!(r.remote_addr, "10.0.0.9");
    assert_eq!(r.remote_port, 5123);
    assert_eq!(r.server_user, "www-data");
    assert_eq!(r.server_home, "/var/www");
    assert_eq!(r.server_addr, "127.0.0.1");
    assert_eq!(r.headers.len(), 0);
    assert_eq!(r.query.len(), 0);
}

#[test]
fn a_request_with_headers() {
    let mut h = HeaderMap::new();
    h.insert("content-length", HeaderValue::from_static("12"));
    h.insert("content-type", HeaderValue::from_static("application/json"));
    h.insert("host", HeaderValue::from_static("example.org:443"));
    let r = build(&h, Some(b"{}".to_vec()));
    assert_eq!(r.content_length, 12);
    assert_eq!(r.content_type, "application/json");
    assert_eq!(r.server_name, "example.org");
    assert_eq!(r.server_port, 443);
    assert!(r.is_https);
    h.insert("x-forwarded-proto", HeaderValue::from_static("http"));
    assert!(!build(&h, None).is_https);
    h.insert("x-forwarded-proto", HeaderValue::from_static("https"));
    h.insert("host", HeaderValue::from_static("example.org"));
    let r = build(&h, None);
    assert!(r.is_https);
    assert_eq!(r.server_port, 80);
    assert_eq!(r.body, "");
}

#[test]
fn unreadable_lengths_fall_back_to_the_body() {
    let mut h = HeaderMap::new();
    h.insert("content-length", HeaderValue::from_static("many"));
    assert_eq!(build(&h, Some(b"12345".to_vec())).content_length, 5);
    h.insert("content-length", HeaderValue::from_bytes(b"\xff").unwrap());
    assert_eq!(build(&h, Some(b"123".to_vec())).content_length, 3);
}

#[test]
fn bodies_that_are_not_text() {
    let r = build(&HeaderMap::new(), Some(vec![b'a', 0xff, b'b']));
    assert_eq!(r.body, "a\u{fffd}b");
    assert_eq!(r.content_length, 5);
}

#[test]
fn the_environment_of_the_server() {
    let env = ServerEnv {
        user: None,
        username: Some("joe".to_string()),
        home: Some("/home/joe".to_string()),
        userprofile: Some("C:\\joe".to_string()),
        local_ip: Some("192.168.1.2".to_string()),
    };
    let r = request_with_body(
        "GET".to_string(),
        "/",
        &HeaderMap::new(),
        StringMap::new(),
        client(),
        HttpVersion::Http2,
        "body".to_string(),
        env,
    );
    assert_eq!(r.server_user, "joe");
    assert_eq!(r.server_home, "/home/joe");
    assert_eq!(r.server_addr, "192.168.1.2");
    assert_eq!(r.protocol, "HTTP/2.0");
    assert_eq!(r.content_length, 4);
}

#[test]
fn names_of_protocols() {
    assert_eq!(protocol_name(HttpVersion::Http09), "HTTP/0.9");
    assert_eq!(protocol_name(HttpVersion::Http10), "HTTP/1.0");
    assert_eq!(protocol_name(HttpVersion::Http11), "HTTP/1.1");
    assert_eq!(protocol_name(HttpVersion::Http2), "HTTP/2.0");
    assert_eq!(protocol_name(HttpVersion::Http3), "HTTP/3.0");
    assert_eq!(protocol_name(HttpVersion::Unknown), "HTTP/1.1");
}

#[test]
fn hosts() {
    assert_eq!(split_host("a.b:8080"), ("a.b".to_string(), 8080));
    assert_eq!(split_host("a.b"), ("a.b".to_string(), 80));
    assert_eq!(split_host("a.b:x"), ("a.b".to_string(), 80));
    assert_eq!(split_host("a.b:65536"), ("a.b".to_string(), 80));
    assert_eq!(split_host("[::1]:3000"), ("[".to_string(), 80));
}

#[test]
fn the_address_of_the_server() {
    assert_eq!(get_local_ip(Some("1.2.3.4".to_string())), Some("1.2.3.4".to_string()));
    assert_eq!(get_local_ip(None), Some("127.0.0.1".to_string()));
}

#[test]
fn headers_by_name() {
    let mut h = HeaderMap::new();
    h.insert("X-Token", HeaderValue::from_static("first"));
    h.append("x-token", HeaderValue::from_static("second"));
    h.insert("accept", HeaderValue::from_static("a\tb"));
    h.insert("x-bad", HeaderValue::from_bytes("é".as_bytes()).unwrap());
    assert_eq!(header(&h, "x-token"), Some("first".to_string()));
    assert_eq!(header(&h, "accept"), Some("a\tb".to_string()));
    assert_eq!(header(&h, "x-bad"), None);
    assert_eq!(header(&h, "missing"), None);
    let map = headers_to_map(&h);
    assert_eq!(map.len(), 2);
    assert_eq!(map.get("accept").cloned(), header(&h, "accept"));
    assert_eq!(map.get("x-token"), Some(&"second".to_string()));
    assert_eq!(map.get("accept"), Some(&"a\tb".to_string()));
    assert_eq!(map.get("x-bad"), None);
}

#[test]
fn every_byte_of_a_header_is_visible_or_not() {
    for b in 0u8..=255 {
        if let Ok(value) = HeaderValue::from_bytes(&[b'a', b]) {
            let mut h = HeaderMap::new();
            h.insert("k", value);
            let visible = (32..127).contains(&b) || b == 9;
            let expected = if visible { Some(format!("a{}", b as char)) } else { None };
            assert_eq!(header(&h, "k"), expected);
        }
    }
}
