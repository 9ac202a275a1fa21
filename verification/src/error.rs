use vstd::prelude::*;

use crate::request::ReqError;

verus! {

/// How a handler can fail: a transport error while answering, or a request
/// it could not read.
#[derive(Debug, PartialEq, Eq, Structural, Clone, Copy)]
pub enum HandleError {
    IoError,
    ReqError(ReqError),
}

/// How routing can fail: the chosen handler failed, no route's pattern
/// matches the URL, or some route's pattern matches it but only under other
/// methods.
#[derive(Debug, PartialEq, Eq, Structural, Clone, Copy)]
pub enum RouteError {
    HandleError(HandleError),
    NotFound,
    MethodNotAllowed,
}

/// How one request/response cycle can fail for the connection: a bad
/// request head, a failed handler, or a transport error while writing.
#[derive(Debug, PartialEq, Eq, Structural, Clone, Copy)]
pub enum ProcError {
    ReqError(ReqError),
    HandleError(HandleError),
    IoError,
}

} // verus!
