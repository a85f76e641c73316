//! The request that the scripts of a page see.
use crate::headers::{header, header_list, header_of, header_texts, headers_to_map};
use crate::host::texts;
use crate::scripts::ServerRequest;
use crate::string_map::StringMap;
use crate::text::{
    cut, digit, digits_value, from_utf8_lossy, is_digits, law_a_digit_more,
    law_cutting_undoes_putting_together, law_reading_a_number_undoes_writing_it,
    law_text_without_separator_stays_whole, lemma_first_index, lossy_text, numeral, parse_u16,
    parse_usize, same_text, split_once, unsigned_value,
};
use axum::http::{HeaderMap, HeaderValue};
use vstd::prelude::*;
use vstd::string::*;
use vstd::utf8::*;

verus! {

/// The version of HTTP that a request came by.
#[derive(Debug, Clone, Copy, PartialEq, Eq, Structural)]
pub enum HttpVersion {
    Http09,
    Http10,
    Http11,
    Http2,
    Http3,
    Unknown,
}

/// What a version of HTTP is called.
pub open spec fn protocol_of(version: HttpVersion) -> Seq<char> {
    match version {
        HttpVersion::Http09 => "HTTP/0.9"@,
        HttpVersion::Http10 => "HTTP/1.0"@,
        HttpVersion::Http11 => "HTTP/1.1"@,
        HttpVersion::Http2 => "HTTP/2.0"@,
        HttpVersion::Http3 => "HTTP/3.0"@,
        HttpVersion::Unknown => "HTTP/1.1"@,
    }
}

/// What a version of HTTP is called.
pub fn protocol_name(version: HttpVersion) -> (r: String)
    ensures
        r@ == protocol_of(version),
{
    match version {
        HttpVersion::Http09 => "HTTP/0.9".to_owned(),
        HttpVersion::Http10 => "HTTP/1.0".to_owned(),
        HttpVersion::Http11 => "HTTP/1.1".to_owned(),
        HttpVersion::Http2 => "HTTP/2.0".to_owned(),
        HttpVersion::Http3 => "HTTP/3.0".to_owned(),
        HttpVersion::Unknown => "HTTP/1.1".to_owned(),
    }
}

/// What the server found in its environment: the variables of these names, and the address of
/// the interface that leads outside.
pub struct ServerEnv {
    pub user: Option<String>,
    pub username: Option<String>,
    pub home: Option<String>,
    pub userprofile: Option<String>,
    pub local_ip: Option<String>,
}

/// Where a request came from.
pub struct ClientAddr {
    pub ip: String,
    pub port: u16,
}

/// The first text that is there, or else `default`.
pub open spec fn first_text(a: Option<String>, b: Option<String>, default: Seq<char>) -> Seq<char> {
    match a {
        Some(t) => t@,
        None => match b {
            Some(t) => t@,
            None => default,
        },
    }
}

fn pick_text(a: Option<String>, b: Option<String>, default: &str) -> (r: String)
    ensures
        r@ == first_text(a, b, default@),
{
    match a {
        Some(t) => t,
        None => match b {
            Some(t) => t,
            None => default.to_owned(),
        },
    }
}

/// The server's own address: what was found, or the loopback address.
pub fn get_local_ip(found: Option<String>) -> (r: Option<String>)
    ensures
        r is Some,
        found is Some ==> r == found,
        found is None ==> r->0@ == "127.0.0.1"@,
{
    match found {
        Some(ip) => Some(ip),
        None => Some("127.0.0.1".to_owned()),
    }
}

/// The name in a `Host` header: what stands before the first colon.
pub open spec fn host_name(host: Seq<char>) -> Seq<char> {
    match cut(host, ':') {
        Some((name, _)) => name,
        None => host,
    }
}

/// The port in a `Host` header: the number behind the first colon, or 80 where there is none.
pub open spec fn host_port(host: Seq<char>) -> nat {
    match cut(host, ':') {
        Some((_, port)) => match unsigned_value(port) {
            Some(v) => if v <= u16::MAX {
                v
            } else {
                80
            },
            None => 80,
        },
        None => 80,
    }
}

/// The name and the port in a `Host` header.
pub fn split_host(host: &str) -> (r: (String, u16))
    ensures
        r.0@ == host_name(host@),
        r.1 == host_port(host@),
{
    match split_once(host, ':') {
        Some((name, port)) => {
            let number: u16 = match parse_u16(port) {
                Some(v) => v,
                None => 80,
            };
            (name.to_owned(), number)
        },
        None => (host.to_owned(), 80),
    }
}

/// The content length that a request declares, or else the length of its body in bytes.
pub open spec fn declared_length(declared: Option<Seq<char>>, body: Seq<char>) -> nat {
    match declared {
        Some(text) => match unsigned_value(text) {
            Some(v) => if v <= usize::MAX {
                v
            } else {
                encode_utf8(body).len()
            },
            None => encode_utf8(body).len(),
        },
        None => encode_utf8(body).len(),
    }
}

/// Whether a request came by HTTPS: as a proxy says, or else by its port.
pub open spec fn came_by_https(forwarded: Option<Seq<char>>, port: nat) -> bool {
    match forwarded {
        Some(proto) => proto == "https"@,
        None => port == 443,
    }
}

/// The text of a header, or else `default`.
pub open spec fn header_or(
    headers: HeaderMap<HeaderValue>,
    name: Seq<char>,
    default: Seq<char>,
) -> Seq<char> {
    match header_of(headers, name) {
        Some(text) => text,
        None => default,
    }
}

/// What the scripts see of a request, said of the request's parts.
pub open spec fn is_request_of(
    r: ServerRequest,
    method: Seq<char>,
    url: Seq<char>,
    headers: HeaderMap<HeaderValue>,
    query: StringMap<String>,
    client: ClientAddr,
    version: HttpVersion,
    body: Seq<char>,
    env: ServerEnv,
) -> bool {
    let host = header_or(headers, "host"@, "localhost:3000"@);
    &&& r.method@ == method
    &&& r.url@ == url
    &&& texts(r.headers@) == header_texts(header_list(headers))
    &&& r.query == query
    &&& r.body@ == body
    &&& r.remote_addr == client.ip
    &&& r.remote_port == client.port
    &&& r.is_https == came_by_https(header_of(headers, "x-forwarded-proto"@), host_port(host))
    &&& r.protocol@ == protocol_of(version)
    &&& r.content_length == declared_length(header_of(headers, "content-length"@), body)
    &&& r.content_type@ == header_or(headers, "content-type"@, "text/plain"@)
    &&& r.server_user@ == first_text(env.user, env.username, "www-data"@)
    &&& r.server_name@ == host_name(host)
    &&& r.server_port == host_port(host)
    &&& r.server_home@ == first_text(env.home, env.userprofile, "/var/www"@)
    &&& r.server_addr@ == first_text(env.local_ip, None, "127.0.0.1"@)
}

/// The text of a request's body: its bytes as text, or no text when it could not be read.
pub open spec fn body_text(body: Option<Seq<u8>>) -> Seq<char> {
    match body {
        Some(bytes) => lossy_text(bytes),
        None => seq![],
    }
}

/// What the scripts see of a request whose body is the text `body`.
pub fn request_with_body(
    method: String,
    url: &str,
    headers: &HeaderMap<HeaderValue>,
    query_params: StringMap<String>,
    client: ClientAddr,
    version: HttpVersion,
    body: String,
    env: ServerEnv,
) -> (r: ServerRequest)
    ensures
        is_request_of(r, method@, url@, *headers, query_params, client, version, body@, env),
        header_of(*headers, "x-forwarded-proto"@) is None ==> (r.is_https <==> r.server_port == 443),
        header_of(*headers, "x-forwarded-proto"@) matches Some(proto) ==> (r.is_https <==> proto
            == "https"@),
{
    proof {
        reveal_strlit("content-length");
        reveal_strlit("content-type");
        reveal_strlit("host");
        reveal_strlit("x-forwarded-proto");
    }
    let body_length: usize = body.as_str().as_bytes().len();
    let content_length: usize = match header(headers, "content-length") {
        Some(text) => match parse_usize(text.as_str()) {
            Some(v) => v,
            None => body_length,
        },
        None => body_length,
    };
    let content_type = match header(headers, "content-type") {
        Some(text) => text,
        None => "text/plain".to_owned(),
    };
    let host = match header(headers, "host") {
        Some(text) => text,
        None => "localhost:3000".to_owned(),
    };
    let (server_name, server_port) = split_host(host.as_str());
    let is_https = match header(headers, "x-forwarded-proto") {
        Some(text) => same_text(text.as_str(), "https"),
        None => server_port == 443,
    };
    let server_addr = match get_local_ip(env.local_ip) {
        Some(ip) => ip,
        None => "127.0.0.1".to_owned(),
    };
    ServerRequest {
        method,
        url: url.to_owned(),
        headers: headers_to_map(headers),
        query: query_params,
        body,
        remote_addr: client.ip,
        remote_port: client.port,
        is_https,
        protocol: protocol_name(version),
        content_length,
        content_type,
        server_user: pick_text(env.user, env.username, "www-data"),
        server_name,
        server_port,
        server_home: pick_text(env.home, env.userprofile, "/var/www"),
        server_addr,
    }
}

/// What the scripts see of a request.  `body` is what was read of its body, if that succeeded.
pub fn build_server_request(
    method: String,
    url: &str,
    headers: &HeaderMap<HeaderValue>,
    query_params: StringMap<String>,
    client: ClientAddr,
    version: HttpVersion,
    body: Option<Vec<u8>>,
    env: ServerEnv,
) -> (r: ServerRequest)
    ensures
        is_request_of(
            r,
            method@,
            url@,
            *headers,
            query_params,
            client,
            version,
            r.body@,
            env,
        ),
        body matches Some(bytes) ==> r.body@ == body_text(Some(bytes@)),
        body matches Some(bytes) ==> (valid_utf8(bytes@) ==> r.body@ == decode_utf8(bytes@)),
        body is None ==> r.body@ == body_text(None),
        body is None ==> r.body@ == Seq::<char>::empty(),
        header_of(*headers, "x-forwarded-proto"@) is None ==> (r.is_https <==> r.server_port == 443),
        header_of(*headers, "x-forwarded-proto"@) matches Some(proto) ==> (r.is_https <==> proto
            == "https"@),
{
    let text = match &body {
        Some(bytes) => from_utf8_lossy(bytes),
        None => String::new(),
    };
    request_with_body(method, url, headers, query_params, client, version, text, env)
}

/// The name in a `Host` header never holds a colon.
pub proof fn law_host_name_has_no_colon(host: Seq<char>)
    ensures
        !host_name(host).contains(':'),
{
    lemma_first_index(host, ':');
}

/// Whether a request came by HTTPS: with a proxy's word exactly when that is `https`, and without
/// one exactly when the port is 443.
pub proof fn law_when_a_request_came_by_https(proto: Seq<char>, port: nat)
    ensures
        came_by_https(Some(proto), port) <==> proto == "https"@,
        came_by_https(None, port) <==> port == 443,
{
}

/// A host without a colon is a name, and the port is 80; so without a proxy's word the request did
/// not come by HTTPS.
pub proof fn law_host_without_port(host: Seq<char>)
    requires
        !host.contains(':'),
    ensures
        host_name(host) == host,
        host_port(host) == 80,
        !came_by_https(None, host_port(host)),
{
    law_text_without_separator_stays_whole(host, ':');
}

/// A host with a port behind a colon: the name is what stands before the colon, and the port is the
/// number behind it.
pub proof fn law_host_with_port(name: Seq<char>, port: nat)
    requires
        !name.contains(':'),
        port <= 65535,
    ensures
        host_name(name + seq![':'] + numeral(port)) == name,
        host_port(name + seq![':'] + numeral(port)) == port,
        came_by_https(None, host_port(name + seq![':'] + numeral(port))) <==> port == 443,
{
    law_cutting_undoes_putting_together(name, ':', numeral(port));
    law_reading_a_number_undoes_writing_it(port);
}

/// What stands behind the first colon of a host counts as port 80 where it is no number, or one that
/// no port has.
pub proof fn law_host_with_unreadable_port(name: Seq<char>, port: Seq<char>)
    requires
        !name.contains(':'),
        unsigned_value(port) matches Some(v) ==> v > 65535,
    ensures
        host_name(name + seq![':'] + port) == name,
        host_port(name + seq![':'] + port) == 80,
{
    law_cutting_undoes_putting_together(name, ':', port);
}

/// The content length of a request is the number that its header writes, and the length of the body
/// in bytes where the header is missing, writes no number, or writes one that is too large.
pub proof fn law_content_length(n: nat, text: Seq<char>, body: Seq<char>)
    ensures
        n <= usize::MAX ==> declared_length(Some(numeral(n)), body) == n,
        n > usize::MAX ==> declared_length(Some(numeral(n)), body) == encode_utf8(body).len(),
        unsigned_value(text) is None ==> declared_length(Some(text), body) == encode_utf8(body).len(),
        declared_length(None, body) == encode_utf8(body).len(),
{
    law_reading_a_number_undoes_writing_it(n);
}

/// The names of the versions of HTTP; a version that is not known counts as HTTP/1.1.
pub proof fn law_names_of_protocols()
    ensures
        protocol_of(HttpVersion::Http09) == "HTTP/0.9"@,
        protocol_of(HttpVersion::Http10) == "HTTP/1.0"@,
        protocol_of(HttpVersion::Http11) == "HTTP/1.1"@,
        protocol_of(HttpVersion::Http2) == "HTTP/2.0"@,
        protocol_of(HttpVersion::Http3) == "HTTP/3.0"@,
        protocol_of(HttpVersion::Unknown) == protocol_of(HttpVersion::Http11),
{
}

/// Of two texts that may be missing the first one that is there counts, as it is, and where neither
/// is there the third.
pub proof fn law_first_text_that_is_there(
    a: String,
    b: String,
    other: Option<String>,
    default: Seq<char>,
)
    ensures
        first_text(Some(a), other, default) == a@,
        first_text(None, Some(b), default) == b@,
        first_text(None, None, default) == default,
{
}

/// What the scripts see of a request, in terms of the request itself: its method, URL, query and body
/// and the client's address as they came, every header that is text, and the rest from the headers
/// `host`, `x-forwarded-proto`, `content-length` and `content-type` and from the environment.
pub proof fn law_what_scripts_see_of_a_request(
    r: ServerRequest,
    method: Seq<char>,
    url: Seq<char>,
    headers: HeaderMap<HeaderValue>,
    query: StringMap<String>,
    client: ClientAddr,
    version: HttpVersion,
    body: Seq<char>,
    env: ServerEnv,
)
    requires
        is_request_of(r, method, url, headers, query, client, version, body, env),
    ensures
        r.method@ == method && r.url@ == url && r.body@ == body && r.query == query,
        r.remote_addr@ == client.ip@ && r.remote_port == client.port,
        texts(r.headers@) == header_texts(header_list(headers)),
        r.protocol@ == protocol_of(version),
        header_of(headers, "host"@) matches Some(host) ==> r.server_name@ == host_name(host)
            && r.server_port == host_port(host),
        header_of(headers, "host"@) is None ==> r.server_name@ == "localhost"@ && r.server_port
            == 3000,
        header_of(headers, "x-forwarded-proto"@) matches Some(proto) ==> (r.is_https <==> proto
            == "https"@),
        header_of(headers, "x-forwarded-proto"@) is None ==> (r.is_https <==> r.server_port == 443),
        header_of(headers, "content-type"@) matches Some(text) ==> r.content_type@ == text,
        header_of(headers, "content-type"@) is None ==> r.content_type@ == "text/plain"@,
        header_of(headers, "content-length"@) is None ==> r.content_length == encode_utf8(
            body,
        ).len(),
        header_of(headers, "content-length"@) matches Some(text) ==> r.content_length == (
        match unsigned_value(text) {
            Some(v) => if v <= usize::MAX {
                v
            } else {
                encode_utf8(body).len()
            },
            None => encode_utf8(body).len(),
        }),
        env.user matches Some(user) ==> r.server_user@ == user@,
        env.user is None ==> (env.username matches Some(user) ==> r.server_user@ == user@),
        env.user is None && env.username is None ==> r.server_user@ == "www-data"@,
        env.home matches Some(home) ==> r.server_home@ == home@,
        env.home is None ==> (env.userprofile matches Some(home) ==> r.server_home@ == home@),
        env.home is None && env.userprofile is None ==> r.server_home@ == "/var/www"@,
        env.local_ip matches Some(ip) ==> r.server_addr@ == ip@,
        env.local_ip is None ==> r.server_addr@ == "127.0.0.1"@,
{
    reveal_strlit("localhost:3000");
    reveal_strlit("localhost");
    let name = "localhost"@;
    let host = "localhost:3000"@;
    let port = seq!['3', '0', '0', '0'];
    assert(host =~= name + seq![':'] + port);
    assert(!name.contains(':'));
    law_cutting_undoes_putting_together(name, ':', port);
    let none = Seq::<char>::empty();
    assert(none.push(digit(3)).push(digit(0)).push(digit(0)).push(digit(0)) =~= port);
    assert(digits_value(none) == 0);
    law_a_digit_more(none, 3);
    law_a_digit_more(none.push(digit(3)), 0);
    law_a_digit_more(none.push(digit(3)).push(digit(0)), 0);
    law_a_digit_more(none.push(digit(3)).push(digit(0)).push(digit(0)), 0);
    assert(is_digits(port));
}

/// A body that could not be read counts as no text.
pub proof fn law_unread_body_is_empty()
    ensures
        body_text(None) == Seq::<char>::empty(),
{
}

/// A number behind the colon of a host, however it is written, is the port, if a port can have it.
pub proof fn law_host_with_written_port(name: Seq<char>, port: Seq<char>, n: nat)
    requires
        !name.contains(':'),
        unsigned_value(port) == Some(n),
        n <= 65535,
    ensures
        host_name(name + seq![':'] + port) == name,
        host_port(name + seq![':'] + port) == n,
{
    law_cutting_undoes_putting_together(name, ':', port);
}

/// A body that was read is taken for the text of its bytes.
pub proof fn law_body_is_the_text_of_its_bytes(bytes: Seq<u8>)
    ensures
        body_text(Some(bytes)) == lossy_text(bytes),
{
}

} // verus!
