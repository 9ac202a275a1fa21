use vstd::prelude::*;

use crate::bytes::{append_bytes, bytes_of};
use crate::request::{insert_para, insert_para_spec, version_token, views_of_paras, HttpVersion};

verus! {

/// The decimal digits of `n`, most significant first.
pub open spec fn dec_digits(n: nat) -> Seq<u8>
    decreases n,
{
    if n < 10 {
        seq![(48 + n) as u8]
    } else {
        dec_digits(n / 10).push((48 + n % 10) as u8)
    }
}

/// Renders `n` in decimal.
pub fn u64_to_dec(n: u64) -> (r: Vec<u8>)
    ensures
        r@ == dec_digits(n as nat),
    decreases n,
{
    if n < 10 {
        let mut r: Vec<u8> = Vec::new();
        r.push(48 + (n as u8));
        proof {
            assert(r@ =~= dec_digits(n as nat));
        }
        r
    } else {
        let mut r = u64_to_dec(n / 10);
        r.push(48 + ((n % 10) as u8));
        proof {
            assert((48 + ((n as nat) % 10)) as u8 == 48 + ((n % 10) as u8));
        }
        r
    }
}

/// The `Content-Length` header name.
pub open spec fn content_length_key() -> Seq<u8> {
    seq![67u8, 111u8, 110u8, 116u8, 101u8, 110u8, 116u8, 45u8, 76u8, 101u8, 110u8, 103u8, 116u8, 104u8]
}

/// The reason phrase `OK`.
pub open spec fn ok_msg() -> Seq<u8> {
    seq![79u8, 75u8]
}

/// The reason phrase `Not Found`.
pub open spec fn not_found_msg() -> Seq<u8> {
    seq![78u8, 111u8, 116u8, 32u8, 70u8, 111u8, 117u8, 110u8, 100u8]
}

/// The reason phrase `Method Not Allowed`.
pub open spec fn method_not_allowed_msg() -> Seq<u8> {
    seq![77u8, 101u8, 116u8, 104u8, 111u8, 100u8, 32u8, 78u8, 111u8, 116u8, 32u8, 65u8, 108u8, 108u8, 111u8, 119u8, 101u8, 100u8]
}

/// The reason phrase `Bad Request`.
pub open spec fn bad_request_msg() -> Seq<u8> {
    seq![66u8, 97u8, 100u8, 32u8, 82u8, 101u8, 113u8, 117u8, 101u8, 115u8, 116u8]
}

/// The reason phrase `Internal Server Error`.
pub open spec fn internal_error_msg() -> Seq<u8> {
    seq![73u8, 110u8, 116u8, 101u8, 114u8, 110u8, 97u8, 108u8, 32u8, 83u8, 101u8, 114u8, 118u8, 101u8, 114u8, 32u8, 69u8, 114u8, 114u8, 111u8, 114u8]
}

/// The canned greeting body, `hello, world`.
pub open spec fn hello_body() -> Seq<u8> {
    seq![104u8, 101u8, 108u8, 108u8, 111u8, 44u8, 32u8, 119u8, 111u8, 114u8, 108u8, 100u8]
}

/// A response under construction or ready to write: status line fields,
/// header pairs, and the body bytes.
pub struct HttpResponse {
    pub version: HttpVersion,
    pub status_code: u32,
    pub status_msg: Vec<u8>,
    pub headers: Vec<(Vec<u8>, Vec<u8>)>,
    pub body: Vec<u8>,
}

/// The shape every canned response starts from: HTTP/1.1, the given status
/// line, a `Content-Length: 0` header, and an empty body.
pub open spec fn spec_canned(r: HttpResponse, code: u32, msg: Seq<u8>) -> bool {
    &&& r.version == HttpVersion::HTTP1_1
    &&& r.status_code == code
    &&& r.status_msg@ == msg
    &&& views_of_paras(r.headers@) == seq![(content_length_key(), seq![48u8])]
    &&& r.body@ == Seq::<u8>::empty()
}

/// A canned response carrying the given status line.
fn canned(code: u32, msg: Vec<u8>) -> (r: HttpResponse)
    ensures
        spec_canned(r, code, msg@),
{
    let key: [u8; 14] = [
        67u8,
        111u8,
        110u8,
        116u8,
        101u8,
        110u8,
        116u8,
        45u8,
        76u8,
        101u8,
        110u8,
        103u8,
        116u8,
        104u8,
    ];
    let mut headers: Vec<(Vec<u8>, Vec<u8>)> = Vec::new();
    let mut zero: Vec<u8> = Vec::new();
    zero.push(48u8);
    headers.push((bytes_of(key.as_slice()), zero));
    let r = HttpResponse {
        version: HttpVersion::HTTP1_1,
        status_code: code,
        status_msg: msg,
        headers,
        body: Vec::new(),
    };
    proof {
        assert(key@ =~= content_length_key());
        assert(views_of_paras(r.headers@) =~= seq![(content_length_key(), seq![48u8])]);
    }
    r
}

/// The headers of a response, rendered in order: `Key: Value` lines, each
/// CRLF-terminated.
pub open spec fn render_headers(hs: Seq<(Seq<u8>, Seq<u8>)>) -> Seq<u8>
    decreases hs.len(),
{
    if hs.len() == 0 {
        Seq::empty()
    } else {
        hs[0].0 + seq![58u8, 32u8] + hs[0].1 + seq![13u8, 10u8] + render_headers(hs.skip(1))
    }
}

/// Appending one header pair extends the rendering at its end.
proof fn lemma_render_headers_push(hs: Seq<(Seq<u8>, Seq<u8>)>, e: (Seq<u8>, Seq<u8>))
    ensures
        render_headers(hs.push(e)) == render_headers(hs) + (e.0 + seq![58u8, 32u8] + e.1 + seq![
            13u8,
            10u8,
        ]),
    decreases hs.len(),
{
    if hs.len() == 0 {
        assert(hs.push(e)[0] == e);
        assert(hs.push(e).skip(1) =~= Seq::<(Seq<u8>, Seq<u8>)>::empty());
        assert(render_headers(hs.push(e).skip(1)) == Seq::<u8>::empty());
        assert(render_headers(hs) == Seq::<u8>::empty());
        assert(render_headers(hs.push(e)) =~= render_headers(hs) + (e.0 + seq![58u8, 32u8] + e.1
            + seq![13u8, 10u8]));
    } else {
        assert(hs.push(e)[0] == hs[0]);
        assert(hs.push(e).skip(1) =~= hs.skip(1).push(e));
        lemma_render_headers_push(hs.skip(1), e);
        assert(render_headers(hs.push(e)) =~= render_headers(hs) + (e.0 + seq![58u8, 32u8] + e.1
            + seq![13u8, 10u8]));
    }
}

/// The wire form of a response: status line, headers, the bare CRLF that
/// ends the header block, then the body and nothing after it.
pub open spec fn spec_render(r: HttpResponse) -> Seq<u8> {
    version_token(r.version) + seq![32u8] + dec_digits(r.status_code as nat) + seq![32u8]
        + r.status_msg@ + seq![13u8, 10u8] + render_headers(views_of_paras(r.headers@)) + seq![
        13u8,
        10u8,
    ] + r.body@
}

impl HttpResponse {
    /// `200 OK` with an empty body.
    pub fn create_200_ok() -> (r: HttpResponse)
        ensures
            spec_canned(r, 200, ok_msg()),
    {
        canned(200, bytes_of(&[79u8, 75u8]))
    }

    /// `404 Not Found` with an empty body.
    pub fn create_404_not_found() -> (r: HttpResponse)
        ensures
            spec_canned(r, 404, not_found_msg()),
    {
        canned(404, bytes_of(&[78u8, 111u8, 116u8, 32u8, 70u8, 111u8, 117u8, 110u8, 100u8]))
    }

    /// `405 Method Not Allowed` with an empty body.
    pub fn create_405_method_not_allowed() -> (r: HttpResponse)
        ensures
            spec_canned(r, 405, method_not_allowed_msg()),
    {
        canned(
            405,
            bytes_of(
                &[
                    77u8,
                    101u8,
                    116u8,
                    104u8,
                    111u8,
                    100u8,
                    32u8,
                    78u8,
                    111u8,
                    116u8,
                    32u8,
                    65u8,
                    108u8,
                    108u8,
                    111u8,
                    119u8,
                    101u8,
                    100u8,
                ],
            ),
        )
    }

    /// `400 Bad Request` with an empty body.
    pub fn create_400_bad_request() -> (r: HttpResponse)
        ensures
            spec_canned(r, 400, bad_request_msg()),
    {
        canned(
            400,
            bytes_of(&[66u8, 97u8, 100u8, 32u8, 82u8, 101u8, 113u8, 117u8, 101u8, 115u8, 116u8]),
        )
    }

    /// `500 Internal Server Error` with an empty body.
    pub fn create_500_internal_server_error() -> (r: HttpResponse)
        ensures
            spec_canned(r, 500, internal_error_msg()),
    {
        canned(
            500,
            bytes_of(
                &[
                    73u8,
                    110u8,
                    116u8,
                    101u8,
                    114u8,
                    110u8,
                    97u8,
                    108u8,
                    32u8,
                    83u8,
                    101u8,
                    114u8,
                    118u8,
                    101u8,
                    114u8,
                    32u8,
                    69u8,
                    114u8,
                    114u8,
                    111u8,
                    114u8,
                ],
            ),
        )
    }

    /// Replaces the body and records its length under `Content-Length`.
    pub fn set_body(&mut self, body: Vec<u8>)
        ensures
            final(self).body@ == body@,
            final(self).version == old(self).version,
            final(self).status_code == old(self).status_code,
            final(self).status_msg == old(self).status_msg,
            views_of_paras(final(self).headers@) == insert_para_spec(
                views_of_paras(old(self).headers@),
                content_length_key(),
                dec_digits(body@.len() as nat),
            ),
    {
        let key: [u8; 14] = [
            67u8,
            111u8,
            110u8,
            116u8,
            101u8,
            110u8,
            116u8,
            45u8,
            76u8,
            101u8,
            110u8,
            103u8,
            116u8,
            104u8,
        ];
        proof {
            assert(key@ =~= content_length_key());
        }
        let len = body.len();
        self.body = body;
        let lv = u64_to_dec(len as u64);
        insert_para(&mut self.headers, bytes_of(key.as_slice()), lv);
    }

    /// `200 OK` greeting the world, with the body length on the wire.
    pub fn create_hello_response() -> (r: HttpResponse)
        ensures
            r.version == HttpVersion::HTTP1_1,
            r.status_code == 200,
            r.status_msg@ == ok_msg(),
            r.body@ == hello_body(),
            views_of_paras(r.headers@) == seq![(content_length_key(), seq![49u8, 50u8])],
    {
        let mut r = HttpResponse::create_200_ok();
        let hello: [u8; 12] = [
            104u8,
            101u8,
            108u8,
            108u8,
            111u8,
            44u8,
            32u8,
            119u8,
            111u8,
            114u8,
            108u8,
            100u8,
        ];
        proof {
            assert(hello@ =~= hello_body());
        }
        r.set_body(bytes_of(hello.as_slice()));
        proof {
            assert(dec_digits(1) =~= seq![49u8]);
            assert(dec_digits(12) =~= seq![49u8, 50u8]);
            let ps0 = seq![(content_length_key(), seq![48u8])];
            assert(ps0[0].0 == content_length_key());
            assert(ps0.skip(1) =~= Seq::<(Seq<u8>, Seq<u8>)>::empty());
            assert(insert_para_spec(ps0, content_length_key(), dec_digits(12)) =~= seq![
                (content_length_key(), dec_digits(12)),
            ]);
            assert(views_of_paras(r.headers@) =~= seq![(content_length_key(), seq![49u8, 50u8])]);
        }
        r
    }

    /// Renders the response in its wire form.
    pub fn to_bytes(&self) -> (r: Vec<u8>)
        ensures
            r@ == spec_render(*self),
    {
        let sp: [u8; 1] = [32u8];
        let crlf: [u8; 2] = [13u8, 10u8];
        proof {
            assert(sp@ =~= seq![32u8]);
            assert(crlf@ =~= seq![13u8, 10u8]);
        }
        let mut out: Vec<u8> = Vec::new();
        let vt = self.version.to_str();
        append_bytes(&mut out, vt.as_slice());
        proof {
            assert(out@ =~= version_token(self.version));
        }
        append_bytes(&mut out, sp.as_slice());
        let code = u64_to_dec(self.status_code as u64);
        append_bytes(&mut out, code.as_slice());
        append_bytes(&mut out, sp.as_slice());
        append_bytes(&mut out, self.status_msg.as_slice());
        append_bytes(&mut out, crlf.as_slice());
        let ghost head = out@;
        proof {
            assert(head == version_token(self.version) + seq![32u8] + dec_digits(
                self.status_code as nat,
            ) + seq![32u8] + self.status_msg@ + seq![13u8, 10u8]);
        }
        let cs: [u8; 2] = [58u8, 32u8];
        proof {
            assert(cs@ =~= seq![58u8, 32u8]);
        }
        let mut k: usize = 0;
        while k < self.headers.len()
            invariant
                k <= self.headers@.len(),
                cs@ == seq![58u8, 32u8],
                crlf@ == seq![13u8, 10u8],
                out@ == head + render_headers(views_of_paras(self.headers@).take(k as int)),
            decreases self.headers@.len() - k,
        {
            let ghost before = out@;
            append_bytes(&mut out, self.headers[k].0.as_slice());
            append_bytes(&mut out, cs.as_slice());
            append_bytes(&mut out, self.headers[k].1.as_slice());
            append_bytes(&mut out, crlf.as_slice());
            proof {
                let vs = views_of_paras(self.headers@);
                lemma_render_headers_push(vs.take(k as int), vs[k as int]);
                assert(vs.take(k as int).push(vs[k as int]) =~= vs.take(k + 1));
                assert(out@ =~= head + render_headers(vs.take(k + 1)));
            }
            k = k + 1;
        }
        proof {
            let vs = views_of_paras(self.headers@);
            assert(vs.take(vs.len() as int) =~= vs);
        }
        append_bytes(&mut out, crlf.as_slice());
        append_bytes(&mut out, self.body.as_slice());
        proof {
            assert(out@ =~= spec_render(*self));
        }
        out
    }
}

} // verus!
