//! Core of a small HTTP/1.0-1.1 server: route templates with positional
//! captures, an incremental CRLF line scanner, a request-head parser, an
//! ordered first-match router, and the per-connection keep-alive and
//! admission decisions. Everything here is verified; the network and task
//! plumbing around it lives outside this crate's library.
pub mod bytes;
pub mod error;
pub mod pattern;
pub mod processor;
pub mod read_until_crlf;
pub mod request;
pub mod response;
pub mod router;

pub use error::{HandleError, ProcError, RouteError};
pub use pattern::{Pattern, PlaceHolder, PlaceHolderType};
pub use processor::{ConnectionState, ProcRes, Processor};
pub use read_until_crlf::find_crlf_in_bytes;
pub use request::{HttpRequestHeader, HttpVersion, Method, ReqError};
pub use response::HttpResponse;
pub use router::{MethodSet, Route, Router};
