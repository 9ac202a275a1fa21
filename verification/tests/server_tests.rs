use httpcore::processor::{
    connection_next_state, finalize_response, next_connection_state, on_read_error,
    response_for_proc_error, response_for_route_error, should_serve,
};
use httpcore::{
    ConnectionState, HandleError, HttpRequestHeader, HttpResponse, HttpVersion, Method, MethodSet,
    ProcError, Processor, ReqError, RouteError,
};

#[test]
fn keep_alive_table() {
    let ka = b"Keep-Alive".to_vec();
    let close = b"close".to_vec();
    assert_eq!(
        next_connection_state(HttpVersion::HTTP1_0, Some(&ka)),
        ConnectionState::Opening
    );
    assert_eq!(next_connection_state(HttpVersion::HTTP1_0, None), ConnectionState::Closed);
    assert_eq!(
        next_connection_state(HttpVersion::HTTP1_0, Some(&close)),
        ConnectionState::Closed
    );
    assert_eq!(
        next_connection_state(HttpVersion::HTTP1_1, Some(&close)),
        ConnectionState::Closed
    );
    assert_eq!(next_connection_state(HttpVersion::HTTP1_1, None), ConnectionState::Opening);
    assert_eq!(
        next_connection_state(HttpVersion::HTTP1_1, Some(&ka)),
        ConnectionState::Opening
    );
}

#[test]
fn keep_alive_from_parsed_heads() {
    let cases: [(&[u8], ConnectionState); 4] = [
        (
            b"GET / HTTP/1.0\r\nConnection: Keep-Alive\r\n\r\n".as_slice(),
            ConnectionState::Opening,
        ),
        (b"GET / HTTP/1.0\r\n\r\n".as_slice(), ConnectionState::Closed),
        (b"GET / HTTP/1.1\r\nConnection: close\r\n\r\n".as_slice(), ConnectionState::Closed),
        (b"GET / HTTP/1.1\r\n\r\n".as_slice(), ConnectionState::Opening),
    ];
    for (data, expected) in cases {
        let (hdr, _) = HttpRequestHeader::from_bytes(data).unwrap();
        assert_eq!(connection_next_state(&hdr), expected);
    }
}

#[test]
fn route_error_responses() {
    let nf = response_for_route_error(&RouteError::NotFound).unwrap();
    assert_eq!(nf.status_code, 404);
    let mna = response_for_route_error(&RouteError::MethodNotAllowed).unwrap();
    assert_eq!(mna.status_code, 405);
    assert!(response_for_route_error(&RouteError::HandleError(HandleError::IoError)).is_none());
}

#[test]
fn admission_gate() {
    assert!(should_serve(0, false));
    assert!(should_serve(19, false));
    assert!(!should_serve(20, false));
    assert!(!should_serve(21, false));
    assert!(!should_serve(0, true));
}

#[test]
fn end_to_end_request_cycle() {
    let mut proc = Processor::new();
    let mut ms = MethodSet::new();
    ms.insert(Method::GET);
    assert!(proc.router.register(b"/hello/{}", ms));

    // a registered path under a registered method
    let (hdr, _) = HttpRequestHeader::from_bytes(b"GET /hello/world HTTP/1.1\r\n\r\n").unwrap();
    let (idx, caps) = proc.router.handle(hdr.method, &hdr.url).unwrap();
    assert_eq!(idx, 0);
    assert_eq!(caps, vec![b"world".to_vec()]);
    let mut resp = httpcore::HttpResponse::create_200_ok();
    resp.version = hdr.version;
    let wire = resp.to_bytes();
    assert!(wire.starts_with(b"HTTP/1.1 200 OK\r\n"));
    assert_eq!(connection_next_state(&hdr), ConnectionState::Opening);

    // an unregistered path
    let (hdr, _) = HttpRequestHeader::from_bytes(b"GET /bye HTTP/1.1\r\n\r\n").unwrap();
    let err = proc.router.handle(hdr.method, &hdr.url).unwrap_err();
    assert_eq!(err, RouteError::NotFound);
    assert_eq!(response_for_route_error(&err).unwrap().status_code, 404);

    // a registered path under an unregistered method
    let (hdr, _) = HttpRequestHeader::from_bytes(b"POST /hello/world HTTP/1.1\r\n\r\n").unwrap();
    let err = proc.router.handle(hdr.method, &hdr.url).unwrap_err();
    assert_eq!(err, RouteError::MethodNotAllowed);
    assert_eq!(response_for_route_error(&err).unwrap().status_code, 405);
}

#[test]
fn read_errors_decide_the_cycle() {
    let res = on_read_error(ReqError::EmptyReq).unwrap();
    assert_eq!(res.connect_state, ConnectionState::Closed);
    assert_eq!(
        on_read_error(ReqError::FmtError).unwrap_err(),
        ProcError::ReqError(ReqError::FmtError)
    );
    assert_eq!(
        on_read_error(ReqError::IOError).unwrap_err(),
        ProcError::ReqError(ReqError::IOError)
    );
}

#[test]
fn failing_cycles_still_answer() {
    let bad = response_for_proc_error(&ProcError::ReqError(ReqError::FmtError)).unwrap();
    assert_eq!(bad.status_code, 400);
    assert_eq!(bad.status_msg, b"Bad Request".to_vec());
    let failed = response_for_proc_error(&ProcError::HandleError(HandleError::IoError)).unwrap();
    assert_eq!(failed.status_code, 500);
    assert!(response_for_proc_error(&ProcError::IoError).is_none());
    assert!(response_for_proc_error(&ProcError::ReqError(ReqError::IOError)).is_none());
    assert!(response_for_proc_error(&ProcError::ReqError(ReqError::EmptyReq)).is_none());
}

#[test]
fn responses_carry_the_negotiated_version() {
    let mut resp = HttpResponse::create_200_ok();
    assert_eq!(resp.version, HttpVersion::HTTP1_1);
    finalize_response(&mut resp, HttpVersion::HTTP1_0);
    assert_eq!(resp.version, HttpVersion::HTTP1_0);
    assert_eq!(resp.status_code, 200);
    assert_eq!(resp.status_msg, b"OK".to_vec());
    assert!(resp.body.is_empty());
    assert!(resp.to_bytes().starts_with(b"HTTP/1.0 200 OK\r\n"));
}

#[test]
fn empty_request_closes_quietly() {
    assert_eq!(HttpRequestHeader::from_bytes(b"").unwrap_err(), ReqError::EmptyReq);
}
