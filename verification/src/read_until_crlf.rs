use vstd::prelude::*;

use crate::bytes::append_bytes;
use vstd::slice::slice_subrange;

verus! {

/// Carriage return, the first byte of a line terminator.
pub const CR: u8 = 13;

/// Line feed, the second byte of a line terminator.
pub const LF: u8 = 10;

/// Whether a CRLF pair starts at offset `p` of `s`.
pub open spec fn crlf_at(s: Seq<u8>, p: int) -> bool {
    &&& 0 <= p
    &&& p + 2 <= s.len()
    &&& s[p] == CR
    &&& s[p + 1] == LF
}

/// The offset of the first CRLF pair at or after `i`, if any.
pub open spec fn find_crlf_from(s: Seq<u8>, i: int) -> Option<int>
    decreases s.len() - i,
    when 0 <= i
{
    if i + 2 > s.len() {
        None
    } else if s[i] == CR && s[i + 1] == LF {
        Some(i)
    } else {
        find_crlf_from(s, i + 1)
    }
}

/// The offset of the first CRLF pair of `s`, if any.
pub open spec fn spec_find_crlf(s: Seq<u8>) -> Option<int> {
    find_crlf_from(s, 0)
}

/// `find_crlf_from` finds exactly the least CRLF offset at or after `i`.
pub proof fn lemma_find_crlf_from(s: Seq<u8>, i: int)
    requires
        0 <= i,
    ensures
        find_crlf_from(s, i) matches Some(p) ==> i <= p && crlf_at(s, p) && (forall|q: int|
            i <= q < p ==> !#[trigger] crlf_at(s, q)),
        find_crlf_from(s, i) is None ==> forall|q: int| q >= i ==> !#[trigger] crlf_at(s, q),
    decreases s.len() - i,
{
    if i + 2 > s.len() {
    } else if s[i] == CR && s[i + 1] == LF {
    } else {
        lemma_find_crlf_from(s, i + 1);
    }
}

/// A CRLF offset below every other CRLF offset is the one the scan finds.
pub proof fn lemma_find_crlf_least(s: Seq<u8>, p: int)
    requires
        crlf_at(s, p),
        forall|q: int| 0 <= q < p ==> !#[trigger] crlf_at(s, q),
    ensures
        spec_find_crlf(s) == Some(p),
{
    lemma_find_crlf_from(s, 0);
    match spec_find_crlf(s) {
        Some(p2) => {
            if p2 < p {
                assert(crlf_at(s, p2));
                assert(false);
            }
            if p < p2 {
                assert(!crlf_at(s, p));
                assert(false);
            }
        },
        None => {
            assert(!crlf_at(s, p));
            assert(false);
        },
    }
}

/// Scanning from offset `i` is scanning the suffix that starts at `i`.
pub proof fn lemma_find_crlf_skip(s: Seq<u8>, i: int)
    requires
        0 <= i <= s.len(),
    ensures
        find_crlf_from(s, i) == match spec_find_crlf(s.skip(i)) {
            Some(p) => Some(p + i),
            None => None::<int>,
        },
    decreases s.len() - i,
{
    let t = s.skip(i);
    if i + 2 > s.len() {
    } else if s[i] == CR && s[i + 1] == LF {
        assert(t[0] == CR && t[1] == LF);
    } else {
        assert(t[0] == s[i] && (t.len() >= 2 ==> t[1] == s[i + 1]));
        lemma_find_crlf_skip(s, i + 1);
        lemma_find_crlf_skip(t, 1);
        assert(s.skip(i + 1) =~= t.skip(1));
    }
}

/// Finds the first CRLF pair of a byte string, returning the offset of its
/// carriage return.
pub fn find_crlf_in_bytes(bytes: &[u8]) -> (r: Option<usize>)
    ensures
        r matches Some(p) ==> spec_find_crlf(bytes@) == Some(p as int),
        r is None ==> spec_find_crlf(bytes@) is None,
{
    if bytes.len() < 2 {
        return None;
    }
    let mut i: usize = 0;
    while i < bytes.len() - 1
        invariant
            0 <= i,
            i + 2 <= bytes.len() + 1,
            find_crlf_from(bytes@, i as int) == spec_find_crlf(bytes@),
        decreases bytes.len() - i,
    {
        if bytes[i] == CR && bytes[i + 1] == LF {
            return Some(i);
        }
        i = i + 1;
    }
    None
}

/// What one fill of the line reader does: a lone `\n` that completes a
/// terminator split across the fill boundary closes the line at once; else
/// the chunk is copied through its first CRLF, or whole when it has none.
pub open spec fn step_spec(b: Seq<u8>, c: Seq<u8>) -> (Seq<u8>, bool, int) {
    if b.len() > 0 && b.last() == CR && c.len() > 0 && c[0] == LF {
        (b.push(LF), true, 1)
    } else {
        match spec_find_crlf(c) {
            Some(p) => (b + c.take(p + 2), true, p + 2),
            None => (b + c, false, c.len() as int),
        }
    }
}

/// Consumes one freshly filled chunk: appends to `buf` what belongs to the
/// current line and reports whether the line is complete and how many chunk
/// bytes were used.
pub fn read_until_crlf_step(buf: &mut Vec<u8>, chunk: &[u8]) -> (res: (bool, usize))
    ensures
        (final(buf)@, res.0, res.1 as int) == step_spec(old(buf)@, chunk@),
{
    if buf.len() > 0 && chunk.len() > 0 && buf[buf.len() - 1] == CR && chunk[0] == LF {
        buf.push(LF);
        return (true, 1);
    }
    match find_crlf_in_bytes(chunk) {
        Some(p) => {
            let clen = chunk.len();
            proof {
                lemma_find_crlf_from(chunk@, 0);
                assert(p + 2 <= clen);
            }
            append_bytes(buf, slice_subrange(chunk, 0, p + 2));
            proof {
                assert(chunk@.subrange(0, p + 2) =~= chunk@.take(p + 2));
            }
            (true, p + 2)
        },
        None => {
            append_bytes(buf, chunk);
            proof {
                assert(chunk@.take(chunk@.len() as int) =~= chunk@);
            }
            (false, chunk.len())
        },
    }
}

/// Where the first line of `s` ends: one past its CRLF terminator.
pub open spec fn first_line_end(s: Seq<u8>) -> Option<int> {
    match spec_find_crlf(s) {
        Some(p) => Some(p + 2),
        None => None,
    }
}

/// The stream a sequence of fills delivers, in order.
pub open spec fn concat_chunks(chunks: Seq<Seq<u8>>) -> Seq<u8>
    decreases chunks.len(),
{
    if chunks.len() == 0 {
        Seq::empty()
    } else {
        chunks[0] + concat_chunks(chunks.skip(1))
    }
}

/// Running the line reader over the fills in order, starting from `buf`,
/// until a line completes or the fills run out.
pub open spec fn feed(buf: Seq<u8>, chunks: Seq<Seq<u8>>) -> (Seq<u8>, bool)
    decreases chunks.len(),
{
    if chunks.len() == 0 {
        (buf, false)
    } else {
        let st = step_spec(buf, chunks[0]);
        if st.1 {
            (st.0, true)
        } else {
            feed(st.0, chunks.skip(1))
        }
    }
}

proof fn lemma_feed_from(buf: Seq<u8>, chunks: Seq<Seq<u8>>)
    requires
        spec_find_crlf(buf) is None,
    ensures
        first_line_end(buf + concat_chunks(chunks)) matches Some(k) ==> feed(buf, chunks) == (
            (buf + concat_chunks(chunks)).take(k),
            true,
        ),
        first_line_end(buf + concat_chunks(chunks)) is None ==> feed(buf, chunks) == (
            buf + concat_chunks(chunks),
            false,
        ),
    decreases chunks.len(),
{
    lemma_find_crlf_from(buf, 0);
    let s = buf + concat_chunks(chunks);
    if chunks.len() == 0 {
        assert(s =~= buf);
        assert forall|q: int| 0 <= q implies !#[trigger] crlf_at(s, q) by {
            assert(!crlf_at(buf, q));
        }
        lemma_find_crlf_from(s, 0);
        match spec_find_crlf(s) {
            Some(p) => {
                assert(crlf_at(s, p));
                assert(false);
            },
            None => {},
        }
    } else {
        let c = chunks[0];
        let rest = chunks.skip(1);
        assert(concat_chunks(chunks) == c + concat_chunks(rest));
        assert(s =~= (buf + c) + concat_chunks(rest));
        let bn = buf.len() as int;
        if buf.len() > 0 && buf.last() == CR && c.len() > 0 && c[0] == LF {
            // the terminator completes across the fill boundary
            assert(s[bn - 1] == CR);
            assert(s[bn] == LF);
            assert(crlf_at(s, bn - 1));
            assert forall|q: int| 0 <= q < bn - 1 implies !#[trigger] crlf_at(s, q) by {
                if crlf_at(s, q) {
                    assert(crlf_at(buf, q));
                }
            }
            lemma_find_crlf_least(s, bn - 1);
            assert(s.take(bn + 1) =~= buf.push(LF));
        } else {
            match spec_find_crlf(c) {
                Some(p) => {
                    // the chunk itself completes the line
                    lemma_find_crlf_from(c, 0);
                    assert(crlf_at(c, p));
                    assert(s[bn + p] == CR);
                    assert(s[bn + p + 1] == LF);
                    assert(crlf_at(s, bn + p));
                    assert forall|q: int| 0 <= q < bn + p implies !#[trigger] crlf_at(s, q) by {
                        if crlf_at(s, q) {
                            if q + 1 < bn {
                                assert(crlf_at(buf, q));
                            } else if q == bn - 1 {
                                assert(buf.last() == CR && c[0] == LF);
                            } else {
                                assert(crlf_at(c, q - bn));
                            }
                        }
                    }
                    lemma_find_crlf_least(s, bn + p);
                    assert(s.take(bn + p + 2) =~= buf + c.take(p + 2));
                },
                None => {
                    // the whole chunk joins the pending line
                    lemma_find_crlf_from(c, 0);
                    let b2 = buf + c;
                    assert forall|q: int| 0 <= q implies !#[trigger] crlf_at(b2, q) by {
                        if crlf_at(b2, q) {
                            if q + 1 < bn {
                                assert(crlf_at(buf, q));
                            } else if q == bn - 1 {
                                assert(buf.len() > 0 && buf.last() == CR && c.len() > 0 && c[0]
                                    == LF);
                            } else {
                                assert(crlf_at(c, q - bn));
                            }
                        }
                    }
                    lemma_find_crlf_from(b2, 0);
                    match spec_find_crlf(b2) {
                        Some(p2) => {
                            assert(crlf_at(b2, p2));
                            assert(false);
                        },
                        None => {},
                    }
                    lemma_feed_from(b2, rest);
                    assert(b2 + concat_chunks(rest) =~= s);
                },
            }
        }
    }
}

/// However a stream is cut into successive fills, the line reader returns
/// exactly the stream's first CRLF-terminated line; a stream with no
/// terminator is returned whole and left open.
pub proof fn lemma_chunking_independent(chunks: Seq<Seq<u8>>)
    ensures
        first_line_end(concat_chunks(chunks)) matches Some(k) ==> feed(Seq::empty(), chunks) == (
            concat_chunks(chunks).take(k),
            true,
        ),
        first_line_end(concat_chunks(chunks)) is None ==> feed(Seq::empty(), chunks) == (
            concat_chunks(chunks),
            false,
        ),
{
    let e = Seq::<u8>::empty();
    lemma_feed_from(e, chunks);
    assert(e + concat_chunks(chunks) =~= concat_chunks(chunks));
}

} // verus!
