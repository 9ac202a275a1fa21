use httpcore::{HttpRequestHeader, HttpResponse, HttpVersion, Method, ReqError};

#[test]
fn method_tokens_round_trip() {
    let all = [
        Method::GET,
        Method::POST,
        Method::PUT,
        Method::DELETE,
        Method::PATCH,
        Method::HEAD,
        Method::OPTIONS,
        Method::TRACE,
        Method::CONNECT,
    ];
    for m in all {
        assert_eq!(Method::from_str(&m.to_str()), Some(m));
    }
    assert_eq!(Method::from_str(b"get"), None);
    assert_eq!(Method::from_str(b""), None);
}

#[test]
fn version_tokens_round_trip() {
    assert_eq!(HttpVersion::from_str(b"HTTP/1.0"), Some(HttpVersion::HTTP1_0));
    assert_eq!(HttpVersion::from_str(b"HTTP/1.1"), Some(HttpVersion::HTTP1_1));
    assert_eq!(HttpVersion::from_str(b"HTTP/2.0"), None);
    assert_eq!(HttpVersion::HTTP1_0.to_str(), b"HTTP/1.0".to_vec());
    assert_eq!(HttpVersion::HTTP1_1.to_str(), b"HTTP/1.1".to_vec());
}

#[test]
fn request_line_parses_three_tokens() {
    let (m, url, v) = httpcore::request::parse_request_line(b"GET /hello HTTP/1.1\r\n").unwrap();
    assert_eq!(m, Method::GET);
    assert_eq!(url, b"/hello".to_vec());
    assert_eq!(v, HttpVersion::HTTP1_1);
}

#[test]
fn request_line_errors() {
    assert_eq!(httpcore::request::parse_request_line(b"").unwrap_err(), ReqError::EmptyReq);
    assert_eq!(
        httpcore::request::parse_request_line(b"GET /hello\r\n").unwrap_err(),
        ReqError::FmtError
    );
    assert_eq!(
        httpcore::request::parse_request_line(b"FETCH /hello HTTP/1.1\r\n").unwrap_err(),
        ReqError::FmtError
    );
    assert_eq!(
        httpcore::request::parse_request_line(b"GET /hello HTTP/3.0\r\n").unwrap_err(),
        ReqError::FmtError
    );
    assert_eq!(httpcore::request::parse_request_line(b"   \r\n").unwrap_err(), ReqError::FmtError);
}

#[test]
fn head_parses_request_line_and_headers() {
    let data = b"GET /hello/world HTTP/1.1\r\nConnection: close\r\nHost: example\r\n\r\nBODY";
    let (hdr, used) = HttpRequestHeader::from_bytes(data).unwrap();
    assert_eq!(hdr.method, Method::GET);
    assert_eq!(hdr.url, b"/hello/world".to_vec());
    assert_eq!(hdr.version, HttpVersion::HTTP1_1);
    assert_eq!(hdr.get_para(b"Connection"), Some(b"close".to_vec()));
    assert_eq!(hdr.get_para(b"Host"), Some(b"example".to_vec()));
    assert_eq!(hdr.get_para(b"Missing"), None);
    assert_eq!(used, data.len() - 4);
}

#[test]
fn head_errors() {
    assert_eq!(HttpRequestHeader::from_bytes(b"").unwrap_err(), ReqError::EmptyReq);
    assert_eq!(
        HttpRequestHeader::from_bytes(b"GET /x HTTP/1.1\r\nNoColonLine\r\n\r\n").unwrap_err(),
        ReqError::FmtError
    );
    // the header block never ends
    assert_eq!(
        HttpRequestHeader::from_bytes(b"GET /x HTTP/1.1\r\nHost: a\r\n").unwrap_err(),
        ReqError::FmtError
    );
}

#[test]
fn header_values_are_trimmed_keys_are_not() {
    let data = b"GET / HTTP/1.0\r\n Key : padded value \r\n\r\n";
    let (hdr, _) = HttpRequestHeader::from_bytes(data).unwrap();
    assert_eq!(hdr.get_para(b" Key "), Some(b"padded value".to_vec()));
    assert_eq!(hdr.get_para(b"Key"), None);
}

#[test]
fn later_header_overwrites_earlier() {
    let data = b"GET / HTTP/1.1\r\nA: 1\r\nA: 2\r\n\r\n";
    let (hdr, _) = HttpRequestHeader::from_bytes(data).unwrap();
    assert_eq!(hdr.get_para(b"A"), Some(b"2".to_vec()));
    assert_eq!(hdr.paras.len(), 1);
}

#[test]
fn decimal_rendering() {
    assert_eq!(httpcore::response::u64_to_dec(0), b"0".to_vec());
    assert_eq!(httpcore::response::u64_to_dec(7), b"7".to_vec());
    assert_eq!(httpcore::response::u64_to_dec(1234), b"1234".to_vec());
    assert_eq!(httpcore::response::u64_to_dec(1000), b"1000".to_vec());
}

#[test]
fn canned_responses() {
    let ok = HttpResponse::create_200_ok();
    assert_eq!(ok.status_code, 200);
    assert_eq!(ok.status_msg, b"OK".to_vec());
    assert_eq!(ok.headers, vec![(b"Content-Length".to_vec(), b"0".to_vec())]);
    assert!(ok.body.is_empty());
    assert_eq!(HttpResponse::create_404_not_found().status_code, 404);
    assert_eq!(HttpResponse::create_404_not_found().status_msg, b"Not Found".to_vec());
    assert_eq!(HttpResponse::create_405_method_not_allowed().status_code, 405);
    assert_eq!(
        HttpResponse::create_405_method_not_allowed().status_msg,
        b"Method Not Allowed".to_vec()
    );
    assert_eq!(HttpResponse::create_400_bad_request().status_code, 400);
    assert_eq!(HttpResponse::create_400_bad_request().status_msg, b"Bad Request".to_vec());
    assert_eq!(HttpResponse::create_500_internal_server_error().status_code, 500);
    assert_eq!(
        HttpResponse::create_500_internal_server_error().status_msg,
        b"Internal Server Error".to_vec()
    );
}

#[test]
fn hello_response_sets_content_length() {
    let r = HttpResponse::create_hello_response();
    assert_eq!(r.body, b"hello, world".to_vec());
    assert_eq!(r.headers, vec![(b"Content-Length".to_vec(), b"12".to_vec())]);
}

#[test]
fn response_wire_form() {
    let mut r = HttpResponse::create_hello_response();
    r.version = HttpVersion::HTTP1_0;
    let wire = r.to_bytes();
    assert_eq!(
        wire,
        b"HTTP/1.0 200 OK\r\nContent-Length: 12\r\n\r\nhello, world".to_vec()
    );
}
