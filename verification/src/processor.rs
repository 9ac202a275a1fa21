use vstd::prelude::*;

use crate::bytes::bytes_eq;
use crate::error::{ProcError, RouteError};
use crate::request::{lookup_para, views_of_paras, HttpRequestHeader, HttpVersion, ReqError};
use crate::response::{
    bad_request_msg, internal_error_msg, method_not_allowed_msg, not_found_msg, spec_canned,
    HttpResponse,
};
use crate::router::Router;

verus! {

/// Whether the connection is kept open for another request or torn down.
#[derive(Debug, PartialEq, Eq, Structural, Clone, Copy)]
pub enum ConnectionState {
    Opening,
    Closed,
}

/// What one request/response cycle decided for the connection.
#[derive(Debug, PartialEq, Eq, Structural, Clone, Copy)]
pub struct ProcRes {
    pub connect_state: ConnectionState,
}

/// The per-connection orchestrator's shared, read-only part: the routing
/// table. The I/O around it runs outside the library and feeds its
/// decisions.
pub struct Processor {
    pub router: Router,
}

impl Processor {
    /// A processor over an empty routing table.
    pub fn new() -> (r: Self)
        ensures
            r.router.routes@.len() == 0,
            r.router.wf(),
    {
        Processor { router: Router::new() }
    }
}

/// How many connections may be served at once before the admission gate
/// stops keep-alive service.
pub const CONN_CAPACITY: u64 = 20;

/// How many seconds one connection may live across keep-alive cycles.
pub const CONN_LIFETIME_SECS: u64 = 5;

/// The `Connection` header name.
pub open spec fn connection_key() -> Seq<u8> {
    seq![67u8, 111u8, 110u8, 110u8, 101u8, 99u8, 116u8, 105u8, 111u8, 110u8]
}

/// The `Keep-Alive` header value.
pub open spec fn keep_alive_token() -> Seq<u8> {
    seq![75u8, 101u8, 101u8, 112u8, 45u8, 65u8, 108u8, 105u8, 118u8, 101u8]
}

/// The `close` header value.
pub open spec fn close_token() -> Seq<u8> {
    seq![99u8, 108u8, 111u8, 115u8, 101u8]
}

/// The view of an optional header value.
pub open spec fn opt_view(c: Option<&Vec<u8>>) -> Option<Seq<u8>> {
    match c {
        Some(v) => Some(v@),
        None => None,
    }
}

/// The keep-alive table: under HTTP/1.0 only `Connection: Keep-Alive` keeps
/// the connection open; under HTTP/1.1 only `Connection: close` closes it.
pub open spec fn spec_next_state(version: HttpVersion, connection: Option<Seq<u8>>) -> ConnectionState {
    match version {
        HttpVersion::HTTP1_0 => if connection == Some(keep_alive_token()) {
            ConnectionState::Opening
        } else {
            ConnectionState::Closed
        },
        HttpVersion::HTTP1_1 => if connection == Some(close_token()) {
            ConnectionState::Closed
        } else {
            ConnectionState::Opening
        },
    }
}

/// Decides the connection's next state from the negotiated version and the
/// request's `Connection` header, exactly by the keep-alive table.
pub fn next_connection_state(version: HttpVersion, connection: Option<&Vec<u8>>) -> (r:
    ConnectionState)
    ensures
        r == spec_next_state(version, opt_view(connection)),
{
    let keep_alive: [u8; 10] = [75u8, 101u8, 101u8, 112u8, 45u8, 65u8, 108u8, 105u8, 118u8, 101u8];
    let close: [u8; 5] = [99u8, 108u8, 111u8, 115u8, 101u8];
    proof {
        assert(keep_alive@ =~= keep_alive_token());
        assert(close@ =~= close_token());
    }
    match version {
        HttpVersion::HTTP1_0 => match connection {
            Some(c) => {
                if bytes_eq(c.as_slice(), keep_alive.as_slice()) {
                    ConnectionState::Opening
                } else {
                    ConnectionState::Closed
                }
            },
            None => ConnectionState::Closed,
        },
        HttpVersion::HTTP1_1 => match connection {
            Some(c) => {
                if bytes_eq(c.as_slice(), close.as_slice()) {
                    ConnectionState::Closed
                } else {
                    ConnectionState::Opening
                }
            },
            None => ConnectionState::Opening,
        },
    }
}

/// Decides the connection's next state straight from a parsed request head.
pub fn connection_next_state(hdr: &HttpRequestHeader) -> (r: ConnectionState)
    ensures
        r == spec_next_state(
            hdr.version,
            lookup_para(views_of_paras(hdr.paras@), connection_key()),
        ),
{
    let key: [u8; 10] = [67u8, 111u8, 110u8, 110u8, 101u8, 99u8, 116u8, 105u8, 111u8, 110u8];
    proof {
        assert(key@ =~= connection_key());
    }
    match hdr.get_para(key.as_slice()) {
        Some(v) => next_connection_state(hdr.version, Some(&v)),
        None => next_connection_state(hdr.version, None),
    }
}

/// The processor's reaction to a failed request read: a peer that closed
/// between requests ends the connection quietly, with no response; any
/// other read failure is the cycle's error.
pub fn on_read_error(e: ReqError) -> (r: Result<ProcRes, ProcError>)
    ensures
        e == ReqError::EmptyReq ==> r == Ok::<_, ProcError>(
            ProcRes { connect_state: ConnectionState::Closed },
        ),
        e != ReqError::EmptyReq ==> r == Err::<ProcRes, _>(ProcError::ReqError(e)),
{
    match e {
        ReqError::EmptyReq => Ok(ProcRes { connect_state: ConnectionState::Closed }),
        _ => Err(ProcError::ReqError(e)),
    }
}

/// Stamps a response with the request's negotiated version, the version the
/// processor sends it under; every other field stays as it was.
pub fn finalize_response(resp: &mut HttpResponse, version: HttpVersion)
    ensures
        final(resp).version == version,
        final(resp).status_code == old(resp).status_code,
        final(resp).status_msg == old(resp).status_msg,
        final(resp).headers == old(resp).headers,
        final(resp).body == old(resp).body,
{
    resp.version = version;
}

/// The canned answer to a routing miss: 404 for a URL no pattern matches,
/// 405 for one that only other methods reach. A handler failure has no
/// canned answer here; `response_for_proc_error` decides what the
/// connection is still owed before it closes.
pub fn response_for_route_error(e: &RouteError) -> (r: Option<HttpResponse>)
    ensures
        *e == RouteError::NotFound ==> (r matches Some(resp) && spec_canned(
            resp,
            404,
            not_found_msg(),
        )),
        *e == RouteError::MethodNotAllowed ==> (r matches Some(resp) && spec_canned(
            resp,
            405,
            method_not_allowed_msg(),
        )),
        (e matches RouteError::HandleError(_)) <==> r is None,
{
    match e {
        RouteError::NotFound => Some(HttpResponse::create_404_not_found()),
        RouteError::MethodNotAllowed => Some(HttpResponse::create_405_method_not_allowed()),
        RouteError::HandleError(_) => None,
    }
}

/// The best-effort answer a failing connection is still owed before it
/// closes: a malformed request head gets `400 Bad Request`, a failed
/// handler `500 Internal Server Error`; after a transport error, or an
/// orderly close, nothing can or need be written.
pub fn response_for_proc_error(e: &ProcError) -> (r: Option<HttpResponse>)
    ensures
        *e == ProcError::ReqError(ReqError::FmtError) ==> (r matches Some(resp) && spec_canned(
            resp,
            400,
            bad_request_msg(),
        )),
        (e matches ProcError::HandleError(_)) ==> (r matches Some(resp) && spec_canned(
            resp,
            500,
            internal_error_msg(),
        )),
        r is None <==> (*e == ProcError::ReqError(ReqError::IOError) || *e == ProcError::ReqError(
            ReqError::EmptyReq,
        ) || *e == ProcError::IoError),
{
    match e {
        ProcError::ReqError(ReqError::FmtError) => Some(HttpResponse::create_400_bad_request()),
        ProcError::ReqError(_) => None,
        ProcError::HandleError(_) => Some(HttpResponse::create_500_internal_server_error()),
        ProcError::IoError => None,
    }
}

/// The admission gate: a connection is served another request only while
/// the process-wide connection count is under capacity and its own
/// lifetime budget has not run out.
pub fn should_serve(conns: u64, deadline_exceeded: bool) -> (r: bool)
    ensures
        r == (conns < CONN_CAPACITY && !deadline_exceeded),
{
    conns < CONN_CAPACITY && !deadline_exceeded
}

} // verus!
