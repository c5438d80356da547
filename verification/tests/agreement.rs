use h1_encoder::encoder::Encoder;
use h1_encoder::headers::Headers;
use h1_encoder::method::Method;
use h1_encoder::request::Request;
use h1_encoder::url::{known_default_port, Url};

/// Every method of this crate beside the same method of `http_types`.
fn methods() -> Vec<(Method, http_types::Method)> {
    vec![
        (Method::Acl, http_types::Method::Acl),
        (Method::BaselineControl, http_types::Method::BaselineControl),
        (Method::Bind, http_types::Method::Bind),
        (Method::Checkin, http_types::Method::Checkin),
        (Method::Checkout, http_types::Method::Checkout),
        (Method::Connect, http_types::Method::Connect),
        (Method::Copy, http_types::Method::Copy),
        (Method::Delete, http_types::Method::Delete),
        (Method::Get, http_types::Method::Get),
        (Method::Head, http_types::Method::Head),
        (Method::Label, http_types::Method::Label),
        (Method::Link, http_types::Method::Link),
        (Method::Lock, http_types::Method::Lock),
        (Method::Merge, http_types::Method::Merge),
        (Method::MkActivity, http_types::Method::MkActivity),
        (Method::MkCalendar, http_types::Method::MkCalendar),
        (Method::MkCol, http_types::Method::MkCol),
        (Method::MkRedirectRef, http_types::Method::MkRedirectRef),
        (Method::MkWorkspace, http_types::Method::MkWorkspace),
        (Method::Move, http_types::Method::Move),
        (Method::Options, http_types::Method::Options),
        (Method::OrderPatch, http_types::Method::OrderPatch),
        (Method::Patch, http_types::Method::Patch),
        (Method::Post, http_types::Method::Post),
        (Method::Pri, http_types::Method::Pri),
        (Method::PropFind, http_types::Method::PropFind),
        (Method::PropPatch, http_types::Method::PropPatch),
        (Method::Put, http_types::Method::Put),
        (Method::Rebind, http_types::Method::Rebind),
        (Method::Report, http_types::Method::Report),
        (Method::Search, http_types::Method::Search),
        (Method::Trace, http_types::Method::Trace),
        (Method::Unbind, http_types::Method::Unbind),
        (Method::Uncheckout, http_types::Method::Uncheckout),
        (Method::Unlink, http_types::Method::Unlink),
        (Method::Unlock, http_types::Method::Unlock),
        (Method::Update, http_types::Method::Update),
        (Method::UpdateRedirectRef, http_types::Method::UpdateRedirectRef),
        (Method::VersionControl, http_types::Method::VersionControl),
    ]
}

fn method_of(method: http_types::Method) -> Method {
    methods().into_iter().find(|(_, theirs)| *theirs == method).unwrap().0
}

/// The request of `http_types`, laid out for the encoder.
fn lay_out(request: &http_types::Request) -> Request<()> {
    let url = request.url();
    let mut headers = Headers::new();
    for (name, values) in request.iter() {
        for value in values.iter() {
            headers.append(name.as_str().as_bytes().to_vec(), value.as_str().as_bytes().to_vec());
        }
    }
    Request {
        method: method_of(request.method()),
        url: Url {
            scheme: url.scheme().as_bytes().to_vec(),
            host: url.host_str().map(|host| host.as_bytes().to_vec()),
            port: url.port(),
            path: url.path().as_bytes().to_vec(),
            query: url.query().map(|query| query.as_bytes().to_vec()),
            fragment: url.fragment().map(|fragment| fragment.as_bytes().to_vec()),
        },
        headers,
        len: request.len(),
        body: Some(()),
    }
}

fn head_of(request: &http_types::Request) -> String {
    let mut encoder = Encoder::new(lay_out(request));
    String::from_utf8(encoder.compute_head().unwrap()).unwrap()
}

#[test]
fn method_names_are_those_of_http_types() {
    let all = methods();
    assert_eq!(all.len(), 39);
    for (ours, theirs) in all {
        assert_eq!(ours.as_str(), theirs.to_string());
        assert_eq!(ours.as_str().parse::<http_types::Method>().unwrap(), theirs);
    }
}

#[test]
fn default_ports_are_those_of_the_url_crate() {
    for scheme in ["http", "https", "ws", "wss", "ftp", "foo", "ssh", "gopher", "file", "data"] {
        let url = http_types::Url::parse(&format!("{}://example.com/", scheme)).unwrap();
        assert_eq!(known_default_port(scheme.as_bytes()), url.port_or_known_default(), "{}", scheme);
    }
}

#[test]
fn get_request_of_http_types() {
    let url = http_types::Url::parse("http://h/path?q=1#frag").unwrap();
    let request = http_types::Request::new(http_types::Method::Get, url);
    assert_eq!(
        head_of(&request),
        "GET /path?q=1 HTTP/1.1\r\nhost: h\r\ncontent-length: 0\r\n\r\n"
    );
}

#[test]
fn connect_request_of_http_types() {
    let url = http_types::Url::parse("https://example.com").unwrap();
    let request = http_types::Request::new(http_types::Method::Connect, url);
    assert_eq!(
        head_of(&request),
        "CONNECT example.com:443 HTTP/1.1\r\nhost: example.com\r\ncontent-length: 0\r\n\
         proxy-connection: keep-alive\r\n\r\n"
    );
}

#[test]
fn default_port_in_a_url_is_not_shown() {
    let url = http_types::Url::parse("http://example.com:80/a%20b?x=%7B").unwrap();
    let request = http_types::Request::new(http_types::Method::Delete, url);
    assert!(head_of(&request).starts_with("DELETE /a%20b?x=%7B HTTP/1.1\r\nhost: example.com\r\n"));
    let url = http_types::Url::parse("http://example.com:8080/").unwrap();
    let request = http_types::Request::new(http_types::Method::Delete, url);
    assert!(head_of(&request).starts_with("DELETE / HTTP/1.1\r\nhost: example.com:8080\r\n"));
}

#[test]
fn headers_of_http_types_come_out_sorted() {
    let url = http_types::Url::parse("http://example.com/").unwrap();
    let mut request = http_types::Request::new(http_types::Method::Post, url);
    request.insert_header("X-Trace", "1");
    request.insert_header("Accept", "text/html");
    request.append_header("accept", "text/plain");
    request.insert_header("Host", "other.example");
    request.set_body("hello");
    assert_eq!(
        head_of(&request),
        "POST / HTTP/1.1\r\nhost: other.example\r\naccept: text/html\r\naccept: text/plain\r\n\
         content-length: 5\r\ncontent-type: text/plain;charset=utf-8\r\nx-trace: 1\r\n\r\n"
    );
}

#[test]
fn url_without_host_of_http_types() {
    let url = http_types::Url::parse("data:text/plain,x").unwrap();
    let request = http_types::Request::new(http_types::Method::Get, url);
    let mut encoder = Encoder::new(lay_out(&request));
    assert!(encoder.compute_head().is_err());
}
