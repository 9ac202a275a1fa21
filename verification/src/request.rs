use vstd::prelude::*;

use crate::bytes::{bytes_eq, bytes_of};
use vstd::pervasive::VecAdditionalExecFns;
use vstd::slice::slice_subrange;

verus! {

/// The nine request methods of HTTP/1.x.
#[derive(Debug, PartialEq, Eq, Structural, Clone, Copy)]
pub enum Method {
    GET,
    POST,
    PUT,
    DELETE,
    PATCH,
    HEAD,
    OPTIONS,
    TRACE,
    CONNECT,
}

/// The wire token of a method, as a byte string.
pub open spec fn method_token(m: Method) -> Seq<u8> {
    match m {
        Method::GET => seq![71u8, 69u8, 84u8],
        Method::POST => seq![80u8, 79u8, 83u8, 84u8],
        Method::PUT => seq![80u8, 85u8, 84u8],
        Method::DELETE => seq![68u8, 69u8, 76u8, 69u8, 84u8, 69u8],
        Method::PATCH => seq![80u8, 65u8, 84u8, 67u8, 72u8],
        Method::HEAD => seq![72u8, 69u8, 65u8, 68u8],
        Method::OPTIONS => seq![79u8, 80u8, 84u8, 73u8, 79u8, 78u8, 83u8],
        Method::TRACE => seq![84u8, 82u8, 65u8, 67u8, 69u8],
        Method::CONNECT => seq![67u8, 79u8, 78u8, 78u8, 69u8, 67u8, 84u8],
    }
}

/// The method whose wire token is `s`, if any.
pub open spec fn spec_method_from(s: Seq<u8>) -> Option<Method> {
    if s == method_token(Method::GET) {
        Some(Method::GET)
    } else if s == method_token(Method::POST) {
        Some(Method::POST)
    } else if s == method_token(Method::PUT) {
        Some(Method::PUT)
    } else if s == method_token(Method::DELETE) {
        Some(Method::DELETE)
    } else if s == method_token(Method::PATCH) {
        Some(Method::PATCH)
    } else if s == method_token(Method::HEAD) {
        Some(Method::HEAD)
    } else if s == method_token(Method::OPTIONS) {
        Some(Method::OPTIONS)
    } else if s == method_token(Method::TRACE) {
        Some(Method::TRACE)
    } else if s == method_token(Method::CONNECT) {
        Some(Method::CONNECT)
    } else {
        None
    }
}

impl Method {
    /// Parses a method token; any other byte string is rejected.
    pub fn from_str(s: &[u8]) -> (r: Option<Method>)
        ensures
            r == spec_method_from(s@),
            r is Some ==> method_token(r->0) == s@,
    {
        let t_get: [u8; 3] = [71u8, 69u8, 84u8];
        let t_post: [u8; 4] = [80u8, 79u8, 83u8, 84u8];
        let t_put: [u8; 3] = [80u8, 85u8, 84u8];
        let t_delete: [u8; 6] = [68u8, 69u8, 76u8, 69u8, 84u8, 69u8];
        let t_patch: [u8; 5] = [80u8, 65u8, 84u8, 67u8, 72u8];
        let t_head: [u8; 4] = [72u8, 69u8, 65u8, 68u8];
        let t_options: [u8; 7] = [79u8, 80u8, 84u8, 73u8, 79u8, 78u8, 83u8];
        let t_trace: [u8; 5] = [84u8, 82u8, 65u8, 67u8, 69u8];
        let t_connect: [u8; 7] = [67u8, 79u8, 78u8, 78u8, 69u8, 67u8, 84u8];
        if bytes_eq(s, t_get.as_slice()) {
            Some(Method::GET)
        } else if bytes_eq(s, t_post.as_slice()) {
            Some(Method::POST)
        } else if bytes_eq(s, t_put.as_slice()) {
            Some(Method::PUT)
        } else if bytes_eq(s, t_delete.as_slice()) {
            Some(Method::DELETE)
        } else if bytes_eq(s, t_patch.as_slice()) {
            Some(Method::PATCH)
        } else if bytes_eq(s, t_head.as_slice()) {
            Some(Method::HEAD)
        } else if bytes_eq(s, t_options.as_slice()) {
            Some(Method::OPTIONS)
        } else if bytes_eq(s, t_trace.as_slice()) {
            Some(Method::TRACE)
        } else if bytes_eq(s, t_connect.as_slice()) {
            Some(Method::CONNECT)
        } else {
            None
        }
    }

    /// The wire token of this method.
    pub fn to_str(&self) -> (r: Vec<u8>)
        ensures
            r@ == method_token(*self),
    {
        match self {
            Method::GET => bytes_of(&[71u8, 69u8, 84u8]),
            Method::POST => bytes_of(&[80u8, 79u8, 83u8, 84u8]),
            Method::PUT => bytes_of(&[80u8, 85u8, 84u8]),
            Method::DELETE => bytes_of(&[68u8, 69u8, 76u8, 69u8, 84u8, 69u8]),
            Method::PATCH => bytes_of(&[80u8, 65u8, 84u8, 67u8, 72u8]),
            Method::HEAD => bytes_of(&[72u8, 69u8, 65u8, 68u8]),
            Method::OPTIONS => bytes_of(&[79u8, 80u8, 84u8, 73u8, 79u8, 78u8, 83u8]),
            Method::TRACE => bytes_of(&[84u8, 82u8, 65u8, 67u8, 69u8]),
            Method::CONNECT => bytes_of(&[67u8, 79u8, 78u8, 78u8, 69u8, 67u8, 84u8]),
        }
    }
}

/// The two protocol versions this core speaks.
#[derive(Debug, PartialEq, Eq, Structural, Clone, Copy)]
pub enum HttpVersion {
    HTTP1_0,
    HTTP1_1,
}

/// The wire token of a version, as a byte string.
pub open spec fn version_token(v: HttpVersion) -> Seq<u8> {
    match v {
        HttpVersion::HTTP1_0 => seq![72u8, 84u8, 84u8, 80u8, 47u8, 49u8, 46u8, 48u8],
        HttpVersion::HTTP1_1 => seq![72u8, 84u8, 84u8, 80u8, 47u8, 49u8, 46u8, 49u8],
    }
}

/// The version whose wire token is `s`, if any.
pub open spec fn spec_version_from(s: Seq<u8>) -> Option<HttpVersion> {
    if s == version_token(HttpVersion::HTTP1_0) {
        Some(HttpVersion::HTTP1_0)
    } else if s == version_token(HttpVersion::HTTP1_1) {
        Some(HttpVersion::HTTP1_1)
    } else {
        None
    }
}

impl HttpVersion {
    /// Parses a version token; any other byte string is rejected.
    pub fn from_str(s: &[u8]) -> (r: Option<HttpVersion>)
        ensures
            r == spec_version_from(s@),
            r is Some ==> version_token(r->0) == s@,
    {
        let t10: [u8; 8] = [72u8, 84u8, 84u8, 80u8, 47u8, 49u8, 46u8, 48u8];
        let t11: [u8; 8] = [72u8, 84u8, 84u8, 80u8, 47u8, 49u8, 46u8, 49u8];
        if bytes_eq(s, t10.as_slice()) {
            Some(HttpVersion::HTTP1_0)
        } else if bytes_eq(s, t11.as_slice()) {
            Some(HttpVersion::HTTP1_1)
        } else {
            None
        }
    }

    /// The wire token of this version.
    pub fn to_str(&self) -> (r: Vec<u8>)
        ensures
            r@ == version_token(*self),
    {
        match self {
            HttpVersion::HTTP1_0 => bytes_of(&[72u8, 84u8, 84u8, 80u8, 47u8, 49u8, 46u8, 48u8]),
            HttpVersion::HTTP1_1 => bytes_of(&[72u8, 84u8, 84u8, 80u8, 47u8, 49u8, 46u8, 49u8]),
        }
    }
}

/// How reading a request head can fail: a transport error, an orderly close
/// before any byte arrived, or a malformed request or header line.
#[derive(Debug, PartialEq, Eq, Structural, Clone, Copy)]
pub enum ReqError {
    IOError,
    EmptyReq,
    FmtError,
}

/// The ASCII whitespace bytes: space, tab, line feed, form feed, carriage
/// return.
pub open spec fn is_ws(b: u8) -> bool {
    b == 32 || b == 9 || b == 10 || b == 12 || b == 13
}

/// The first offset at or after `i` holding a non-whitespace byte.
pub open spec fn skip_ws(s: Seq<u8>, i: int) -> int
    decreases s.len() - i,
    when 0 <= i <= s.len()
{
    if i == s.len() {
        i
    } else if is_ws(s[i]) {
        skip_ws(s, i + 1)
    } else {
        i
    }
}

/// The first offset at or after `i` holding a whitespace byte.
pub open spec fn token_end(s: Seq<u8>, i: int) -> int
    decreases s.len() - i,
    when 0 <= i <= s.len()
{
    if i == s.len() {
        i
    } else if is_ws(s[i]) {
        i
    } else {
        token_end(s, i + 1)
    }
}

/// What the whitespace scan guarantees: everything it skipped is
/// whitespace, and it stops at the first byte that is not.
pub proof fn lemma_skip_ws_props(s: Seq<u8>, i: int)
    requires
        0 <= i <= s.len(),
    ensures
        i <= skip_ws(s, i) <= s.len(),
        skip_ws(s, i) < s.len() ==> !is_ws(s[skip_ws(s, i)]),
        forall|k: int| i <= k < skip_ws(s, i) ==> is_ws(#[trigger] s[k]),
    decreases s.len() - i,
{
    if i < s.len() && is_ws(s[i]) {
        lemma_skip_ws_props(s, i + 1);
    }
}

/// What the byte search guarantees when it succeeds: the hit lies in range
/// and holds the byte looked for.
pub proof fn lemma_find_byte_from(s: Seq<u8>, b: u8, i: int)
    requires
        0 <= i <= s.len(),
    ensures
        find_byte_from(s, b, i) matches Some(p) ==> i <= p < s.len() && s[p] == b,
    decreases s.len() - i,
{
    if i < s.len() && s[i] != b {
        lemma_find_byte_from(s, b, i + 1);
    }
}

/// Parsing one request line: the first three whitespace-separated tokens are
/// the method, the URL and the version; an empty line means the peer closed
/// before sending, and a missing token or unknown method or version token is
/// a format error.
pub open spec fn spec_parse_request_line(line: Seq<u8>) -> Result<
    (Method, Seq<u8>, HttpVersion),
    ReqError,
> {
    if line.len() == 0 {
        Err(ReqError::EmptyReq)
    } else {
        let s1 = skip_ws(line, 0);
        let e1 = token_end(line, s1);
        if s1 == e1 {
            Err(ReqError::FmtError)
        } else {
            match spec_method_from(line.subrange(s1, e1)) {
                None => Err(ReqError::FmtError),
                Some(m) => {
                    let s2 = skip_ws(line, e1);
                    let e2 = token_end(line, s2);
                    if s2 == e2 {
                        Err(ReqError::FmtError)
                    } else {
                        let s3 = skip_ws(line, e2);
                        let e3 = token_end(line, s3);
                        if s3 == e3 {
                            Err(ReqError::FmtError)
                        } else {
                            match spec_version_from(line.subrange(s3, e3)) {
                                None => Err(ReqError::FmtError),
                                Some(v) => Ok((m, line.subrange(s2, e2), v)),
                            }
                        }
                    }
                },
            }
        }
    }
}

/// The first offset at or after `i` where byte `b` occurs.
pub open spec fn find_byte_from(s: Seq<u8>, b: u8, i: int) -> Option<int>
    decreases s.len() - i,
    when 0 <= i <= s.len()
{
    if i == s.len() {
        None
    } else if s[i] == b {
        Some(i)
    } else {
        find_byte_from(s, b, i + 1)
    }
}

/// One past the last non-whitespace byte of `s.take(i)`.
pub open spec fn trim_end(s: Seq<u8>, i: int) -> int
    decreases i,
    when 0 <= i <= s.len()
{
    if i == 0 {
        0
    } else if is_ws(s[i - 1]) {
        trim_end(s, i - 1)
    } else {
        i
    }
}

/// `s` without leading and trailing ASCII whitespace.
pub open spec fn spec_trim(s: Seq<u8>) -> Seq<u8> {
    if skip_ws(s, 0) == s.len() {
        Seq::empty()
    } else {
        s.subrange(skip_ws(s, 0), trim_end(s, s.len() as int))
    }
}

/// Parsing one header line: the bytes before the first `:` are the key,
/// kept as they are; the bytes after it are the value, trimmed of
/// surrounding whitespace. A line without `:` is malformed.
pub open spec fn spec_parse_header_line(line: Seq<u8>) -> Option<(Seq<u8>, Seq<u8>)> {
    match find_byte_from(line, 58, 0) {
        None => None,
        Some(ci) => Some((line.take(ci), spec_trim(line.skip(ci + 1)))),
    }
}

/// The value stored under key `k`, if any: keys are unique, so the first
/// entry that carries `k` decides.
pub open spec fn lookup_para(ps: Seq<(Seq<u8>, Seq<u8>)>, k: Seq<u8>) -> Option<Seq<u8>>
    decreases ps.len(),
{
    if ps.len() == 0 {
        None
    } else if ps[0].0 == k {
        Some(ps[0].1)
    } else {
        lookup_para(ps.skip(1), k)
    }
}

/// Storing `v` under `k`: an entry already keyed `k` is overwritten, else
/// the pair goes to the end.
pub open spec fn insert_para_spec(ps: Seq<(Seq<u8>, Seq<u8>)>, k: Seq<u8>, v: Seq<u8>) -> Seq<
    (Seq<u8>, Seq<u8>),
>
    decreases ps.len(),
{
    if ps.len() == 0 {
        seq![(k, v)]
    } else if ps[0].0 == k {
        seq![(k, v)] + ps.skip(1)
    } else {
        seq![ps[0]] + insert_para_spec(ps.skip(1), k, v)
    }
}

/// The byte strings a key-value list holds.
pub open spec fn views_of_paras(ps: Seq<(Vec<u8>, Vec<u8>)>) -> Seq<(Seq<u8>, Seq<u8>)> {
    Seq::new(ps.len(), |k: int| (ps[k].0@, ps[k].1@))
}

/// Where the line that starts at `pos` ends: one past its CRLF terminator,
/// or the end of the data when no terminator follows.
pub open spec fn line_end_at(data: Seq<u8>, pos: int) -> int {
    match crate::read_until_crlf::find_crlf_from(data, pos) {
        Some(p) => p + 2,
        None => data.len() as int,
    }
}

/// Parsing the header block from `pos` onward, given the pairs gathered so
/// far: lines are cut at CRLF and stored key by key until a bare CRLF line;
/// running out of data or hitting a line without `:` is a format error.
pub open spec fn spec_parse_headers(data: Seq<u8>, pos: int, acc: Seq<(Seq<u8>, Seq<u8>)>) -> Result<
    (Seq<(Seq<u8>, Seq<u8>)>, int),
    ReqError,
>
    decreases data.len() - pos,
    when 0 <= pos <= data.len()
{
    let end = line_end_at(data, pos);
    let line = data.subrange(pos, end);
    if line == seq![crate::read_until_crlf::CR, crate::read_until_crlf::LF] {
        Ok((acc, end))
    } else {
        match spec_parse_header_line(line) {
            None => Err(ReqError::FmtError),
            Some(kv) => {
                proof {
                    crate::read_until_crlf::lemma_find_crlf_from(data, pos);
                    if end == pos {
                        assert(line.len() == 0);
                        assert(find_byte_from(line, 58, 0) is None);
                    }
                }
                spec_parse_headers(data, end, insert_para_spec(acc, kv.0, kv.1))
            },
        }
    }
}

/// Parsing a whole request head: the first line is the request line, the
/// following lines up to a bare CRLF are the headers, and the result carries
/// how many bytes the head occupied. Empty data means the peer closed.
pub open spec fn spec_parse_head(data: Seq<u8>) -> Result<
    ((Method, Seq<u8>, HttpVersion, Seq<(Seq<u8>, Seq<u8>)>), int),
    ReqError,
> {
    if data.len() == 0 {
        Err(ReqError::EmptyReq)
    } else {
        let rl_end = line_end_at(data, 0);
        match spec_parse_request_line(data.take(rl_end)) {
            Err(e) => Err(e),
            Ok(rl) => match spec_parse_headers(data, rl_end, Seq::empty()) {
                Err(e) => Err(e),
                Ok(hs) => Ok(((rl.0, rl.1, rl.2, hs.0), hs.1)),
            },
        }
    }
}

/// A parsed request head: the request line fields and the header pairs.
#[derive(Debug)]
pub struct HttpRequestHeader {
    pub method: Method,
    pub url: Vec<u8>,
    pub version: HttpVersion,
    pub paras: Vec<(Vec<u8>, Vec<u8>)>,
}

/// Whether `b` is ASCII whitespace, decided at run time.
fn is_ws_exec(b: u8) -> (r: bool)
    ensures
        r == is_ws(b),
{
    b == 32 || b == 9 || b == 10 || b == 12 || b == 13
}

/// Advances past whitespace, from offset `from`.
fn skip_ws_exec(s: &[u8], from: usize) -> (r: usize)
    requires
        from <= s@.len(),
    ensures
        r == skip_ws(s@, from as int),
        from <= r <= s@.len(),
{
    let mut i = from;
    while i < s.len() && is_ws_exec(s[i])
        invariant
            from <= i <= s@.len(),
            skip_ws(s@, i as int) == skip_ws(s@, from as int),
        decreases s@.len() - i,
    {
        i = i + 1;
    }
    i
}

/// Advances to the next whitespace byte, from offset `from`.
fn token_end_exec(s: &[u8], from: usize) -> (r: usize)
    requires
        from <= s@.len(),
    ensures
        r == token_end(s@, from as int),
        from <= r <= s@.len(),
{
    let mut i = from;
    while i < s.len() && !is_ws_exec(s[i])
        invariant
            from <= i <= s@.len(),
            token_end(s@, i as int) == token_end(s@, from as int),
        decreases s@.len() - i,
    {
        i = i + 1;
    }
    i
}

/// Parses a request line into method, URL and version, as
/// `spec_parse_request_line` lays down.
pub fn parse_request_line(line: &[u8]) -> (r: Result<(Method, Vec<u8>, HttpVersion), ReqError>)
    ensures
        r is Ok <==> spec_parse_request_line(line@) is Ok,
        r matches Ok(t) ==> spec_parse_request_line(line@) == Ok::<_, ReqError>(
            (t.0, t.1@, t.2),
        ),
        r matches Err(e) ==> spec_parse_request_line(line@) == Err::<(Method, Seq<u8>, HttpVersion),
            _,
        >(e),
{
    if line.len() == 0 {
        return Err(ReqError::EmptyReq);
    }
    let s1 = skip_ws_exec(line, 0);
    let e1 = token_end_exec(line, s1);
    if s1 == e1 {
        return Err(ReqError::FmtError);
    }
    let m = match Method::from_str(slice_subrange(line, s1, e1)) {
        None => { return Err(ReqError::FmtError) },
        Some(m) => m,
    };
    let s2 = skip_ws_exec(line, e1);
    let e2 = token_end_exec(line, s2);
    if s2 == e2 {
        return Err(ReqError::FmtError);
    }
    let s3 = skip_ws_exec(line, e2);
    let e3 = token_end_exec(line, s3);
    if s3 == e3 {
        return Err(ReqError::FmtError);
    }
    let v = match HttpVersion::from_str(slice_subrange(line, s3, e3)) {
        None => { return Err(ReqError::FmtError) },
        Some(v) => v,
    };
    let url = bytes_of(slice_subrange(line, s2, e2));
    Ok((m, url, v))
}

/// Finds the first `:` of a header line.
fn find_colon(s: &[u8]) -> (r: Option<usize>)
    ensures
        r matches Some(ci) ==> find_byte_from(s@, 58, 0) == Some(ci as int),
        r is None ==> find_byte_from(s@, 58, 0) is None,
{
    let mut i: usize = 0;
    while i < s.len()
        invariant
            i <= s@.len(),
            find_byte_from(s@, 58, i as int) == find_byte_from(s@, 58, 0),
        decreases s@.len() - i,
    {
        if s[i] == 58 {
            return Some(i);
        }
        i = i + 1;
    }
    None
}

/// Copies `s` without its surrounding ASCII whitespace.
fn trim_exec(s: &[u8]) -> (r: Vec<u8>)
    ensures
        r@ == spec_trim(s@),
{
    let start = skip_ws_exec(s, 0);
    if start == s.len() {
        return Vec::new();
    }
    let mut e = s.len();
    while e > 0 && is_ws_exec(s[e - 1])
        invariant
            e <= s@.len(),
            trim_end(s@, e as int) == trim_end(s@, s@.len() as int),
            forall|k: int| e <= k < s@.len() ==> is_ws(s@[k]),
        decreases e,
    {
        e = e - 1;
    }
    proof {
        lemma_skip_ws_props(s@, 0);
        assert(trim_end(s@, e as int) == e as int);
        assert(!is_ws(s@[start as int]));
        if e <= start {
            assert(is_ws(s@[start as int]));
        }
    }
    bytes_of(slice_subrange(s, start, e))
}

/// Splits a header line at its first `:` into the key and the trimmed value.
pub fn parse_header_line(line: &[u8]) -> (r: Option<(Vec<u8>, Vec<u8>)>)
    ensures
        r is Some <==> spec_parse_header_line(line@) is Some,
        r matches Some(kv) ==> spec_parse_header_line(line@) == Some((kv.0@, kv.1@)),
{
    match find_colon(line) {
        None => None,
        Some(ci) => {
            proof {
                lemma_find_byte_from(line@, 58, 0);
            }
            let llen = line.len();
            proof {
                assert(ci < llen);
            }
            let k = bytes_of(slice_subrange(line, 0, ci));
            let v = trim_exec(slice_subrange(line, ci + 1, line.len()));
            proof {
                assert(line@.subrange(0, ci as int) =~= line@.take(ci as int));
                assert(line@.subrange(ci + 1, line@.len() as int) =~= line@.skip(ci + 1));
            }
            Some((k, v))
        },
    }
}

/// `insert_para_spec` at the first entry that carries the key is an update
/// in place.
proof fn lemma_insert_para_hit(ps: Seq<(Seq<u8>, Seq<u8>)>, k: Seq<u8>, v: Seq<u8>, i: int)
    requires
        0 <= i < ps.len(),
        ps[i].0 == k,
        forall|j: int| 0 <= j < i ==> (#[trigger] ps[j]).0 != k,
    ensures
        insert_para_spec(ps, k, v) == ps.update(i, (k, v)),
    decreases i,
{
    if i == 0 {
        assert(insert_para_spec(ps, k, v) =~= ps.update(0, (k, v)));
    } else {
        assert(ps.skip(1)[i - 1] == ps[i]);
        assert forall|j: int| 0 <= j < i - 1 implies (#[trigger] ps.skip(1)[j]).0 != k by {
            assert(ps.skip(1)[j] == ps[j + 1]);
        }
        lemma_insert_para_hit(ps.skip(1), k, v, i - 1);
        assert(insert_para_spec(ps, k, v) =~= ps.update(i, (k, v)));
    }
}

/// `insert_para_spec` without a matching key appends the pair.
proof fn lemma_insert_para_miss(ps: Seq<(Seq<u8>, Seq<u8>)>, k: Seq<u8>, v: Seq<u8>)
    requires
        forall|j: int| 0 <= j < ps.len() ==> (#[trigger] ps[j]).0 != k,
    ensures
        insert_para_spec(ps, k, v) == ps.push((k, v)),
    decreases ps.len(),
{
    if ps.len() == 0 {
        assert(insert_para_spec(ps, k, v) =~= ps.push((k, v)));
    } else {
        assert forall|j: int| 0 <= j < ps.skip(1).len() implies (#[trigger] ps.skip(
            1,
        )[j]).0 != k by {
            assert(ps.skip(1)[j] == ps[j + 1]);
        }
        lemma_insert_para_miss(ps.skip(1), k, v);
        assert(insert_para_spec(ps, k, v) =~= ps.push((k, v)));
    }
}

/// The index of the entry keyed `k`, if one exists.
fn find_key(ps: &Vec<(Vec<u8>, Vec<u8>)>, k: &[u8]) -> (r: Option<usize>)
    ensures
        r matches Some(i) ==> i < ps@.len() && views_of_paras(ps@)[i as int].0 == k@ && (forall|
            j: int,
        |
            0 <= j < i ==> (#[trigger] views_of_paras(ps@)[j]).0 != k@),
        r is None ==> forall|j: int|
            0 <= j < ps@.len() ==> (#[trigger] views_of_paras(ps@)[j]).0 != k@,
{
    let mut i: usize = 0;
    while i < ps.len()
        invariant
            i <= ps@.len(),
            forall|j: int| 0 <= j < i ==> (#[trigger] views_of_paras(ps@)[j]).0 != k@,
        decreases ps@.len() - i,
    {
        if bytes_eq(ps[i].0.as_slice(), k) {
            return Some(i);
        }
        i = i + 1;
    }
    None
}

/// Stores `v` under `k` in a key-value list, overwriting an entry that
/// already carries `k`.
pub fn insert_para(ps: &mut Vec<(Vec<u8>, Vec<u8>)>, k: Vec<u8>, v: Vec<u8>)
    ensures
        views_of_paras(final(ps)@) == insert_para_spec(views_of_paras(old(ps)@), k@, v@),
{
    let ghost oldviews = views_of_paras(ps@);
    let ghost kk = k@;
    let ghost vv = v@;
    match find_key(ps, k.as_slice()) {
        Some(i) => {
            proof {
                lemma_insert_para_hit(oldviews, kk, vv, i as int);
            }
            ps.set(i, (k, v));
            proof {
                assert(views_of_paras(ps@) =~= oldviews.update(i as int, (kk, vv)));
            }
        },
        None => {
            proof {
                lemma_insert_para_miss(oldviews, kk, vv);
            }
            ps.push((k, v));
            proof {
                assert(views_of_paras(ps@) =~= oldviews.push((kk, vv)));
            }
        },
    }
}

/// Looks a key up in a key-value list.
pub fn get_para_from(ps: &Vec<(Vec<u8>, Vec<u8>)>, key: &[u8]) -> (r: Option<Vec<u8>>)
    ensures
        r matches Some(v) ==> lookup_para(views_of_paras(ps@), key@) == Some(v@),
        r is None ==> lookup_para(views_of_paras(ps@), key@) is None,
{
    proof {
        assert(views_of_paras(ps@).skip(0) =~= views_of_paras(ps@));
    }
    let mut i: usize = 0;
    while i < ps.len()
        invariant
            i <= ps@.len(),
            lookup_para(views_of_paras(ps@).skip(i as int), key@) == lookup_para(
                views_of_paras(ps@),
                key@,
            ),
        decreases ps@.len() - i,
    {
        let ghost vs = views_of_paras(ps@);
        proof {
            assert(vs.skip(i as int)[0] == vs[i as int]);
            assert(vs.skip(i as int).skip(1) =~= vs.skip(i + 1));
        }
        if bytes_eq(ps[i].0.as_slice(), key) {
            return Some(bytes_of(ps[i].1.as_slice()));
        }
        i = i + 1;
    }
    proof {
        assert(views_of_paras(ps@).skip(ps@.len() as int) =~= Seq::<(Seq<u8>, Seq<u8>)>::empty());
    }
    None
}

/// Where the line that starts at `pos` ends, found by scanning forward.
pub fn line_end_exec(data: &[u8], pos: usize) -> (end: usize)
    requires
        pos <= data@.len(),
    ensures
        end as int == line_end_at(data@, pos as int),
        pos <= end <= data@.len(),
        pos < data@.len() ==> pos < end,
{
    let rest = slice_subrange(data, pos, data.len());
    proof {
        crate::read_until_crlf::lemma_find_crlf_skip(data@, pos as int);
        assert(data@.skip(pos as int) =~= rest@);
    }
    match crate::read_until_crlf::find_crlf_in_bytes(rest) {
        Some(p) => {
            proof {
                crate::read_until_crlf::lemma_find_crlf_from(rest@, 0);
            }
            pos + p + 2
        },
        None => data.len(),
    }
}

impl HttpRequestHeader {
    /// A fresh header: `GET` at the empty URL over HTTP/1.1, with no header
    /// pairs yet.
    pub fn new() -> (r: Self)
        ensures
            r.method == Method::GET,
            r.url@ == Seq::<u8>::empty(),
            r.version == HttpVersion::HTTP1_1,
            r.paras@.len() == 0,
    {
        HttpRequestHeader { method: Method::GET, url: Vec::new(), version: HttpVersion::HTTP1_1, paras: Vec::new() }
    }

    /// The value of the header named `key`, if the request carried it.
    pub fn get_para(&self, key: &[u8]) -> (r: Option<Vec<u8>>)
        ensures
            r matches Some(v) ==> lookup_para(views_of_paras(self.paras@), key@) == Some(v@),
            r is None ==> lookup_para(views_of_paras(self.paras@), key@) is None,
    {
        get_para_from(&self.paras, key)
    }

    /// Parses a request head out of buffered data, returning the head and
    /// how many bytes it occupied, as `spec_parse_head` lays down.
    pub fn from_bytes(data: &[u8]) -> (r: Result<(HttpRequestHeader, usize), ReqError>)
        ensures
            r is Ok <==> spec_parse_head(data@) is Ok,
            r matches Ok(pair) ==> spec_parse_head(data@) matches Ok(sp) && pair.0.method == sp.0.0
                && pair.0.url@ == sp.0.1 && pair.0.version == sp.0.2 && views_of_paras(
                pair.0.paras@,
            ) == sp.0.3 && pair.1 as int == sp.1,
            r matches Err(e) ==> spec_parse_head(data@) == Err::<
                ((Method, Seq<u8>, HttpVersion, Seq<(Seq<u8>, Seq<u8>)>), int),
                _,
            >(e),
    {
        if data.len() == 0 {
            return Err(ReqError::EmptyReq);
        }
        let rl_end = line_end_exec(data, 0);
        let line = slice_subrange(data, 0, rl_end);
        proof {
            assert(line@ =~= data@.take(rl_end as int));
        }
        let (m, u, v) = match parse_request_line(line) {
            Ok(t) => t,
            Err(e) => { return Err(e) },
        };
        let mut hdr = HttpRequestHeader { method: m, url: u, version: v, paras: Vec::new() };
        let mut pos = rl_end;
        proof {
            assert(views_of_paras(hdr.paras@) =~= Seq::<(Seq<u8>, Seq<u8>)>::empty());
        }
        loop
            invariant
                0 < pos <= data@.len(),
                data@.len() > 0,
                rl_end as int == line_end_at(data@, 0),
                spec_parse_request_line(data@.take(rl_end as int)) == Ok::<_, ReqError>(
                    (hdr.method, hdr.url@, hdr.version),
                ),
                spec_parse_headers(data@, pos as int, views_of_paras(hdr.paras@))
                    == spec_parse_headers(data@, rl_end as int, Seq::empty()),
            decreases data@.len() - pos,
        {
            let end = line_end_exec(data, pos);
            let line = slice_subrange(data, pos, end);
            if line.len() == 2 && line[0] == crate::read_until_crlf::CR && line[1]
                == crate::read_until_crlf::LF {
                proof {
                    assert(line@ =~= seq![
                        crate::read_until_crlf::CR,
                        crate::read_until_crlf::LF,
                    ]);
                }
                return Ok((hdr, end));
            }
            proof {
                assert(line@ != seq![crate::read_until_crlf::CR, crate::read_until_crlf::LF]);
            }
            match parse_header_line(line) {
                None => { return Err(ReqError::FmtError) },
                Some((k, vv)) => {
                    proof {
                        if pos == end {
                            assert(line@.len() == 0);
                            assert(find_byte_from(line@, 58, 0) is None);
                        }
                    }
                    insert_para(&mut hdr.paras, k, vv);
                    pos = end;
                },
            }
        }
    }
}

} // verus!
