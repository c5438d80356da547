use h1_encoder::encoder::{Encoder, Step};
use h1_encoder::error::HeadError;
use h1_encoder::headers::Headers;
use h1_encoder::method::Method;
use h1_encoder::request::Request;
use h1_encoder::url::{known_default_port, Url};

fn b(s: &str) -> Vec<u8> {
    s.as_bytes().to_vec()
}

fn url(scheme: &str, host: Option<&str>, port: Option<u16>, path: &str, query: Option<&str>) -> Url {
    Url {
        scheme: b(scheme),
        host: host.map(b),
        port,
        path: b(path),
        query: query.map(b),
        fragment: None,
    }
}

fn request(method: Method, url: Url, len: Option<usize>) -> Request<Vec<u8>> {
    Request { method, url, headers: Headers::new(), len, body: Some(Vec::new()) }
}

fn head_of(request: Request<Vec<u8>>) -> Result<String, HeadError> {
    let mut encoder = Encoder::new(request);
    encoder.compute_head().map(|bytes| String::from_utf8(bytes).unwrap())
}

#[test]
fn get_head_is_exact() {
    let req = request(Method::Get, url("http", Some("example.com"), None, "/", None), Some(0));
    assert_eq!(
        head_of(req).unwrap(),
        "GET / HTTP/1.1\r\nhost: example.com\r\ncontent-length: 0\r\n\r\n"
    );
}

#[test]
fn connect_target_has_the_default_port() {
    let req = request(Method::Connect, url("https", Some("example.com"), None, "/", None), Some(0));
    let head = head_of(req).unwrap();
    assert!(head.starts_with("CONNECT example.com:443 HTTP/1.1\r\n"));
}

#[test]
fn connect_head_is_exact() {
    let req = request(Method::Connect, url("https", Some("example.com"), None, "/", None), None);
    assert_eq!(
        head_of(req).unwrap(),
        "CONNECT example.com:443 HTTP/1.1\r\nhost: example.com\r\n\
         proxy-connection: keep-alive\r\ntransfer-encoding: chunked\r\n\r\n"
    );
}

#[test]
fn connect_target_has_the_explicit_port() {
    let req =
        request(Method::Connect, url("https", Some("example.com"), Some(8443), "/", None), Some(0));
    let head = head_of(req).unwrap();
    assert!(head.starts_with("CONNECT example.com:8443 HTTP/1.1\r\nhost: example.com:8443\r\n"));
}

#[test]
fn connect_with_unknown_scheme_and_port_works() {
    let req = request(Method::Connect, url("foo", Some("example.com"), Some(1456), "", None), Some(0));
    let head = head_of(req).unwrap();
    assert!(head.starts_with("CONNECT example.com:1456 HTTP/1.1\r\n"));
}

#[test]
fn connect_without_any_port_fails() {
    let req = request(Method::Connect, url("foo", Some("example.com"), None, "", None), Some(0));
    assert_eq!(head_of(req), Err(HeadError::NoDefaultPort));
}

#[test]
fn connect_without_host_fails_even_with_a_host_header() {
    let mut req = request(Method::Connect, url("https", None, None, "/", None), Some(0));
    req.headers.insert(b("host"), b("example.com"));
    assert_eq!(head_of(req), Err(HeadError::MissingHostname));
}

#[test]
fn get_target_leaves_the_fragment_out() {
    let mut u = url("http", Some("h"), None, "/path", Some("q=1"));
    u.fragment = Some(b("frag"));
    let head = head_of(request(Method::Get, u, Some(0))).unwrap();
    assert!(head.starts_with("GET /path?q=1 HTTP/1.1\r\n"));
    assert!(!head.contains("frag"));
}

#[test]
fn target_without_query_is_the_path() {
    let head =
        head_of(request(Method::Post, url("http", Some("h"), None, "/a/b", None), Some(3))).unwrap();
    assert!(head.starts_with("POST /a/b HTTP/1.1\r\n"));
}

#[test]
fn empty_query_keeps_its_question_mark() {
    let head =
        head_of(request(Method::Get, url("http", Some("h"), None, "/a", Some("")), Some(0))).unwrap();
    assert!(head.starts_with("GET /a? HTTP/1.1\r\n"));
}

#[test]
fn missing_hostname_is_an_error() {
    let req = request(Method::Get, url("http", None, None, "/", None), Some(0));
    assert_eq!(head_of(req), Err(HeadError::MissingHostname));
}

#[test]
fn missing_hostname_writes_nothing() {
    let req = request(Method::Get, url("http", None, None, "/", None), Some(0));
    let mut encoder = Encoder::new(req);
    let mut buf = [0xaau8; 16];
    assert!(matches!(encoder.poll_read(&mut buf), Err(HeadError::MissingHostname)));
    assert_eq!(buf, [0xaau8; 16]);
    assert!(matches!(encoder.poll_read(&mut buf), Err(HeadError::MissingHostname)));
    assert_eq!(encoder.request().headers.len(), 0);
}

#[test]
fn host_header_stands_in_for_a_missing_hostname() {
    let mut req = request(Method::Get, url("http", None, None, "/", None), Some(0));
    req.headers.insert(b("Host"), b("example.org"));
    assert_eq!(
        head_of(req).unwrap(),
        "GET / HTTP/1.1\r\nHost: example.org\r\ncontent-length: 0\r\n\r\n"
    );
}

#[test]
fn host_header_shows_a_port_that_is_not_the_default() {
    let req = request(Method::Get, url("http", Some("example.com"), Some(8080), "/", None), Some(0));
    assert!(head_of(req).unwrap().contains("\r\nhost: example.com:8080\r\n"));
}

#[test]
fn host_header_hides_the_default_port() {
    let req = request(Method::Get, url("http", Some("example.com"), Some(80), "/", None), Some(0));
    assert!(head_of(req).unwrap().contains("\r\nhost: example.com\r\n"));
    let req = request(Method::Get, url("https", Some("example.com"), Some(443), "/", None), Some(0));
    assert!(head_of(req).unwrap().contains("\r\nhost: example.com\r\n"));
    let req = request(Method::Get, url("https", Some("example.com"), Some(80), "/", None), Some(0));
    assert!(head_of(req).unwrap().contains("\r\nhost: example.com:80\r\n"));
}

#[test]
fn default_ports_by_scheme() {
    assert_eq!(known_default_port(b"http"), Some(80));
    assert_eq!(known_default_port(b"ws"), Some(80));
    assert_eq!(known_default_port(b"https"), Some(443));
    assert_eq!(known_default_port(b"wss"), Some(443));
    assert_eq!(known_default_port(b"ftp"), Some(21));
    assert_eq!(known_default_port(b"file"), None);
    assert_eq!(known_default_port(b"HTTP"), None);
    assert_eq!(known_default_port(b""), None);
}

#[test]
fn port_or_known_default_prefers_the_explicit_port() {
    assert_eq!(url("https", Some("h"), Some(1), "/", None).port_or_known_default(), Some(1));
    assert_eq!(url("https", Some("h"), None, "/", None).port_or_known_default(), Some(443));
    assert_eq!(url("gopher", Some("h"), None, "/", None).port_or_known_default(), None);
}

#[test]
fn content_length_is_decimal() {
    for (len, text) in [
        (0usize, "0"),
        (7, "7"),
        (10, "10"),
        (1234, "1234"),
        (100000, "100000"),
        (4294967295, "4294967295"),
    ] {
        let req = request(Method::Put, url("http", Some("h"), None, "/", None), Some(len));
        let head = head_of(req).unwrap();
        assert!(head.contains(&format!("\r\ncontent-length: {}\r\n", text)), "{}", head);
        assert!(!head.contains("transfer-encoding"));
    }
}

#[test]
fn content_length_of_the_largest_length() {
    let req = request(Method::Put, url("http", Some("h"), None, "/", None), Some(usize::MAX));
    let head = head_of(req).unwrap();
    assert!(head.contains(&format!("\r\ncontent-length: {}\r\n", usize::MAX)));
}

#[test]
fn unknown_length_is_chunked() {
    let req = request(Method::Post, url("http", Some("h"), None, "/", None), None);
    let head = head_of(req).unwrap();
    assert!(head.contains("\r\ntransfer-encoding: chunked\r\n"));
    assert!(!head.contains("content-length"));
}

#[test]
fn framing_header_replaces_the_callers() {
    let mut req = request(Method::Post, url("http", Some("h"), None, "/", None), Some(5));
    req.headers.insert(b("Content-Length"), b("99"));
    let head = head_of(req).unwrap();
    assert_eq!(head, "POST / HTTP/1.1\r\nhost: h\r\ncontent-length: 5\r\n\r\n");
}

#[test]
fn proxy_connection_is_not_doubled() {
    let mut req = request(Method::Connect, url("http", Some("h"), None, "/", None), Some(0));
    req.headers.insert(b("Proxy-Connection"), b("close"));
    let head = head_of(req).unwrap();
    assert_eq!(
        head,
        "CONNECT h:80 HTTP/1.1\r\nhost: h\r\ncontent-length: 0\r\nproxy-connection: keep-alive\r\n\r\n"
    );
}

#[test]
fn proxy_connection_is_for_connect_only() {
    let req = request(Method::Get, url("http", Some("h"), None, "/", None), Some(0));
    assert!(!head_of(req).unwrap().contains("proxy-connection"));
}

#[test]
fn host_is_first_whatever_the_order_of_insertion() {
    let names = ["accept", "Host", "!bang", "0zero", "Zeta", "alpha"];
    let orders: [[usize; 6]; 4] =
        [[0, 1, 2, 3, 4, 5], [5, 4, 3, 2, 1, 0], [1, 0, 5, 2, 4, 3], [2, 3, 0, 5, 4, 1]];
    for order in orders {
        let mut req = request(Method::Get, url("http", Some("h"), None, "/", None), None);
        for i in order {
            req.headers.insert(b(names[i]), b("v"));
        }
        let head = head_of(req).unwrap();
        assert_eq!(
            head,
            "GET / HTTP/1.1\r\nHost: v\r\n!bang: v\r\n0zero: v\r\naccept: v\r\nalpha: v\r\n\
             transfer-encoding: chunked\r\nZeta: v\r\n\r\n"
        );
        assert_eq!(head.to_ascii_lowercase().matches("\r\nhost:").count(), 1);
    }
}

#[test]
fn headers_are_sorted_without_regard_to_case() {
    let mut req = request(Method::Get, url("http", Some("h"), None, "/", None), Some(0));
    req.headers.insert(b("X-b"), b("1"));
    req.headers.insert(b("x-A"), b("2"));
    req.headers.insert(b("x-c"), b("3"));
    req.headers.insert(b("X"), b("4"));
    assert_eq!(
        head_of(req).unwrap(),
        "GET / HTTP/1.1\r\nhost: h\r\ncontent-length: 0\r\nX: 4\r\nx-A: 2\r\nX-b: 1\r\nx-c: 3\r\n\r\n"
    );
}

#[test]
fn each_value_has_its_line() {
    let mut req = request(Method::Get, url("http", Some("h"), None, "/", None), Some(0));
    req.headers.append(b("accept"), b("text/html"));
    req.headers.append(b("Accept"), b("text/plain"));
    req.headers.append(b("ACCEPT"), b("*/*"));
    assert_eq!(
        head_of(req).unwrap(),
        "GET / HTTP/1.1\r\nhost: h\r\naccept: text/html\r\naccept: text/plain\r\naccept: */*\r\n\
         content-length: 0\r\n\r\n"
    );
}

#[test]
fn finalize_headers_adds_what_is_missing() {
    let req = request(Method::Connect, url("http", Some("h"), Some(81), "/", None), Some(12));
    let mut encoder = Encoder::new(req);
    assert_eq!(encoder.finalize_headers(), Ok(()));
    let headers = &encoder.request().headers;
    assert_eq!(headers.len(), 3);
    assert_eq!(headers.get(0).name, b"host");
    assert_eq!(headers.get(0).values, vec![b("h:81")]);
    assert_eq!(headers.get(1).name, b"proxy-connection");
    assert_eq!(headers.get(1).values, vec![b("keep-alive")]);
    assert_eq!(headers.get(2).name, b"content-length");
    assert_eq!(headers.get(2).values, vec![b("12")]);
}

#[test]
fn finalize_headers_twice_changes_nothing_more() {
    let req = request(Method::Connect, url("http", Some("h"), None, "/", None), None);
    let mut encoder = Encoder::new(req);
    assert_eq!(encoder.finalize_headers(), Ok(()));
    assert_eq!(encoder.finalize_headers(), Ok(()));
    let headers = &encoder.request().headers;
    assert_eq!(headers.len(), 3);
    assert_eq!(headers.get(2).name, b"transfer-encoding");
    assert_eq!(headers.get(2).values, vec![b("chunked")]);
}

#[test]
fn finalize_headers_fails_without_a_host() {
    let req = request(Method::Get, url("http", None, None, "/", None), None);
    let mut encoder = Encoder::new(req);
    assert_eq!(encoder.finalize_headers(), Err(HeadError::MissingHostname));
    assert_eq!(encoder.request().headers.len(), 0);
}

#[test]
fn first_read_gives_the_whole_head_if_it_fits() {
    let req = request(Method::Get, url("http", Some("example.com"), None, "/", None), Some(0));
    let mut encoder = Encoder::new(req);
    let mut buf = [0u8; 256];
    let expected = b"GET / HTTP/1.1\r\nhost: example.com\r\ncontent-length: 0\r\n\r\n";
    match encoder.poll_read(&mut buf) {
        Ok(Step::Ready(n)) => {
            assert_eq!(n, expected.len());
            assert_eq!(&buf[..n], &expected[..]);
            assert!(buf[n..].iter().all(|&x| x == 0));
        },
        other => panic!("{:?}", other),
    }
}

#[test]
fn method_names() {
    assert_eq!(Method::Get.as_str(), "GET");
    assert_eq!(Method::Connect.as_str(), "CONNECT");
    assert_eq!(Method::BaselineControl.as_str(), "BASELINE-CONTROL");
    assert_eq!(Method::VersionControl.as_str(), "VERSION-CONTROL");
    assert_eq!(Method::UpdateRedirectRef.as_str(), "UPDATEREDIRECTREF");
    let head = head_of(request(Method::PropFind, url("http", Some("h"), None, "/", None), Some(0)));
    assert!(head.unwrap().starts_with("PROPFIND / HTTP/1.1\r\n"));
}

#[test]
fn error_messages() {
    assert_eq!(HeadError::MissingHostname.message(), "Missing hostname");
    assert_eq!(HeadError::NoDefaultPort.message(), "Unexpected scheme with no default port");
}

#[test]
fn known_length_drops_the_callers_transfer_encoding() {
    let mut req = request(Method::Get, url("http", Some("h"), None, "/", None), Some(0));
    req.headers.insert(b("transfer-encoding"), b("chunked"));
    assert_eq!(head_of(req).unwrap(), "GET / HTTP/1.1\r\nhost: h\r\ncontent-length: 0\r\n\r\n");
    let mut req = request(Method::Post, url("http", Some("h"), None, "/", None), Some(5));
    req.headers.insert(b("accept"), b("*/*"));
    req.headers.append(b("Transfer-Encoding"), b("gzip"));
    req.headers.append(b("transfer-encoding"), b("chunked"));
    req.headers.insert(b("x-after"), b("1"));
    assert_eq!(
        head_of(req).unwrap(),
        "POST / HTTP/1.1\r\nhost: h\r\naccept: */*\r\ncontent-length: 5\r\nx-after: 1\r\n\r\n"
    );
}

#[test]
fn unknown_length_drops_the_callers_content_length() {
    let mut req = request(Method::Post, url("http", Some("h"), None, "/", None), None);
    req.headers.insert(b("Content-Length"), b("12"));
    req.headers.insert(b("accept"), b("*/*"));
    assert_eq!(
        head_of(req).unwrap(),
        "POST / HTTP/1.1\r\nhost: h\r\naccept: */*\r\ntransfer-encoding: chunked\r\n\r\n"
    );
}

#[test]
fn finalize_headers_leaves_one_word_on_framing() {
    let mut req = request(Method::Put, url("http", Some("h"), None, "/", None), Some(7));
    req.headers.insert(b("Transfer-Encoding"), b("chunked"));
    req.headers.insert(b("host"), b("h"));
    req.headers.insert(b("content-length"), b("1"));
    let mut encoder = Encoder::new(req);
    assert_eq!(encoder.finalize_headers(), Ok(()));
    let headers = &encoder.request().headers;
    assert_eq!(headers.len(), 2);
    assert_eq!(headers.get(0).name, b"host");
    assert_eq!(headers.get(1).name, b"content-length");
    assert_eq!(headers.get(1).values, vec![b("7")]);
    assert!(!headers.contains(b"transfer-encoding"));
}

#[test]
fn callers_host_header_leads_as_it_came() {
    let mut req = request(Method::Get, url("http", Some("h"), None, "/", None), Some(0));
    req.headers.insert(b("accept"), b("*/*"));
    req.headers.insert(b("HOST"), b("other.example:81"));
    assert_eq!(
        head_of(req).unwrap(),
        "GET / HTTP/1.1\r\nHOST: other.example:81\r\naccept: */*\r\ncontent-length: 0\r\n\r\n"
    );
}
