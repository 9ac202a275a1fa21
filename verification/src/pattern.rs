use vstd::prelude::*;

use crate::bytes::bytes_eq;
use vstd::slice::{slice_subrange, slice_to_vec};
use vstd::pervasive::VecAdditionalExecFns;

verus! {

/// `{`, which opens a placeholder in a route template.
pub const LBRACE: u8 = 123;

/// `}`, which closes a placeholder.
pub const RBRACE: u8 = 125;

/// `?`, which starts the query section of a template or URL.
pub const QMARK: u8 = 63;

/// `/`, the path-segment separator.
pub const SLASH: u8 = 47;

/// `&`, the query-parameter separator.
pub const AMP: u8 = 38;

/// How much of the URL a placeholder may consume: `Path` stops only at `?`,
/// `Dir` at `/` or `?`, `Value` at `&`, and `All` never stops on a byte class.
#[derive(Debug, PartialEq, Eq, Structural, Clone, Copy)]
pub enum PlaceHolderType {
    Path,
    Dir,
    Value,
    All,
}

/// A placeholder of a compiled template: its offset into the literal
/// template and its kind.
#[derive(Debug, PartialEq, Eq, Structural, Clone, Copy)]
pub struct PlaceHolder {
    pub pos: usize,
    pub tp: PlaceHolderType,
}

/// A compiled route template: the literal bytes with the placeholders
/// removed, and the placeholders in template order.
pub struct Pattern {
    pub url: Vec<u8>,
    pub holders: Vec<PlaceHolder>,
}

/// The kind a placeholder label selects. Unknown or empty labels default to
/// `Value` once the query section has begun and to `Dir` before it.
pub open spec fn label_kind(label: Seq<u8>, is_val: bool) -> PlaceHolderType {
    if label == seq![112u8, 97u8, 116u8, 104u8] || label == seq![112u8] {
        PlaceHolderType::Path
    } else if label == seq![100u8, 105u8, 114u8] || label == seq![100u8] {
        PlaceHolderType::Dir
    } else if label == seq![118u8, 97u8, 108u8, 117u8, 101u8] || label == seq![118u8] {
        PlaceHolderType::Value
    } else if label == seq![97u8, 108u8, 108u8] || label == seq![97u8] {
        PlaceHolderType::All
    } else if is_val {
        PlaceHolderType::Value
    } else {
        PlaceHolderType::Dir
    }
}

/// Whether some recorded placeholder already sits at offset `pos`.
pub open spec fn has_pos(hs: Seq<PlaceHolder>, pos: int) -> bool {
    exists|k: int| 0 <= k < hs.len() && hs[k].pos == pos
}

/// One pass of the template scanner, from byte `i` onward. `buf` and `hs`
/// are the literal template and the placeholders gathered so far, `is_val`
/// records whether a `?` has been seen, `in_brace` whether the scanner is
/// inside an open `{`, and `l` the byte after that `{`.
pub open spec fn compile_from(
    ps: Seq<u8>,
    i: int,
    buf: Seq<u8>,
    hs: Seq<PlaceHolder>,
    is_val: bool,
    in_brace: bool,
    l: int,
) -> Option<(Seq<u8>, Seq<PlaceHolder>)>
    decreases ps.len() - i,
    when 0 <= i <= ps.len() && (in_brace ==> 0 <= l <= i)
{
    if !in_brace {
        if i == ps.len() {
            Some((buf, hs))
        } else if ps[i] == LBRACE {
            compile_from(ps, i + 1, buf, hs, is_val, true, i + 1)
        } else if ps[i] == QMARK {
            compile_from(ps, i + 1, buf.push(QMARK), hs, true, false, l)
        } else {
            compile_from(ps, i + 1, buf.push(ps[i]), hs, is_val, false, l)
        }
    } else {
        if i == ps.len() {
            None
        } else if ps[i] == RBRACE {
            if has_pos(hs, buf.len() as int) {
                None
            } else {
                let tp = label_kind(ps.subrange(l, i), is_val);
                compile_from(
                    ps,
                    i + 1,
                    buf,
                    hs.push(PlaceHolder { pos: buf.len() as usize, tp }),
                    is_val,
                    false,
                    l,
                )
            }
        } else {
            compile_from(ps, i + 1, buf, hs, is_val, true, l)
        }
    }
}

/// The compiled form of a whole template: the literal bytes and the
/// placeholders, or nothing when the template is rejected.
pub open spec fn spec_compile(ps: Seq<u8>) -> Option<(Seq<u8>, Seq<PlaceHolder>)> {
    compile_from(ps, 0, Seq::empty(), Seq::empty(), false, false, 0)
}

impl Pattern {
    /// Validity of a compiled pattern: placeholder offsets strictly increase,
    /// each offset lies within the literal template, and a template that
    /// carries placeholders leaves room to step one byte past its end.
    pub open spec fn wf(&self) -> bool {
        &&& forall|k1: int, k2: int|
            0 <= k1 < k2 < self.holders@.len() ==> self.holders@[k1].pos < self.holders@[k2].pos
        &&& forall|k: int| 0 <= k < self.holders@.len() ==> self.holders@[k].pos <= self.url@.len()
        &&& (self.holders@.len() > 0 ==> self.url@.len() < usize::MAX)
    }

    /// Compiles a route template. Rejects a template whose placeholders
    /// collide on one offset and a template whose final `{` is never closed.
    pub fn from_str(ps: &[u8]) -> (r: Option<Pattern>)
        ensures
            r is Some <==> spec_compile(ps@) is Some,
            r matches Some(p) ==> spec_compile(ps@) == Some((p.url@, p.holders@)) && p.wf(),
    {
        let mut buf: Vec<u8> = Vec::new();
        let mut holders: Vec<PlaceHolder> = Vec::new();
        let mut i: usize = 0;
        let mut l: usize = 0;
        let mut is_val: bool = false;
        let mut in_brace: bool = false;

        while i < ps.len()
            invariant
                i <= ps.len(),
                in_brace ==> l <= i,
                buf@.len() + 2 * holders@.len() + (if in_brace {
                    1int
                } else {
                    0int
                }) <= i,
                forall|k1: int, k2: int|
                    0 <= k1 < k2 < holders@.len() ==> holders@[k1].pos < holders@[k2].pos,
                forall|k: int| 0 <= k < holders@.len() ==> holders@[k].pos <= buf@.len(),
                compile_from(ps@, i as int, buf@, holders@, is_val, in_brace, l as int)
                    == spec_compile(ps@),
            decreases ps.len() - i,
        {
            let c = ps[i];
            if !in_brace {
                if c == LBRACE {
                    i = i + 1;
                    l = i;
                    in_brace = true;
                } else if c == QMARK {
                    is_val = true;
                    buf.push(QMARK);
                    i = i + 1;
                } else {
                    buf.push(c);
                    i = i + 1;
                }
            } else {
                if c == RBRACE {
                    let pos = buf.len();
                    if holders.len() > 0 && holders[holders.len() - 1].pos == pos {
                        proof {
                            assert(has_pos(holders@, pos as int));
                        }
                        return None;
                    }
                    proof {
                        assert forall|k: int| 0 <= k < holders@.len() implies holders@[k].pos
                            != pos as int by {
                            if k < holders@.len() - 1 {
                                assert(holders@[k].pos < holders@[holders@.len() - 1].pos);
                            }
                        }
                        assert(!has_pos(holders@, pos as int));
                    }
                    let label = slice_subrange(ps, l, i);
                    let tp = label_kind_exec(label, is_val);
                    holders.push(PlaceHolder { pos, tp });
                    i = i + 1;
                    in_brace = false;
                } else {
                    i = i + 1;
                }
            }
        }
        if in_brace {
            return None;
        }
        let p = Pattern { url: buf, holders };
        proof {
            assert(p.holders@.len() > 0 ==> p.url@.len() + 2 <= ps@.len());
        }
        Some(p)
    }
}

/// The two live states of the matcher; acceptance and denial are returns.
#[derive(Debug, PartialEq, Eq, Structural, Clone, Copy)]
pub enum MatchState {
    Normal,
    Matching,
}

/// Whether `b` ends a capture of kind `tp`.
pub open spec fn is_terminator(tp: PlaceHolderType, b: u8) -> bool {
    match tp {
        PlaceHolderType::Path => b == QMARK,
        PlaceHolderType::Dir => b == SLASH || b == QMARK,
        PlaceHolderType::Value => b == AMP,
        PlaceHolderType::All => false,
    }
}

/// Well-formedness of a matcher configuration: the capture window `[l, r)`
/// sits left of the URL cursor `j`, and an open window points at a real
/// placeholder.
pub open spec fn match_inv(
    hs: Seq<PlaceHolder>,
    url: Seq<u8>,
    st: MatchState,
    i: int,
    j: int,
    pn: int,
    l: int,
    r: int,
) -> bool {
    &&& 0 <= l <= r <= j <= url.len()
    &&& 0 <= i
    &&& 0 <= pn <= hs.len()
    &&& (l < r ==> pn < hs.len())
    &&& (st == MatchState::Matching ==> hs.len() > 0)
}

/// Ranks a configuration for termination: within one value of the capture
/// end `r`, the machine passes at most once through each rank.
pub open spec fn match_rank(st: MatchState, j: int, r: int) -> int {
    match st {
        MatchState::Normal => if j <= r {
            4int
        } else {
            2int
        },
        MatchState::Matching => if j <= r {
            3int
        } else {
            0int
        },
    }
}

/// What acceptance returns: a still-open non-empty capture is flushed into
/// slot `pn`, which fails when every slot is already filled.
pub open spec fn accept_result(
    url: Seq<u8>,
    hs_len: int,
    pn: int,
    l: int,
    r: int,
    caps: Seq<Seq<u8>>,
) -> Option<Seq<Seq<u8>>> {
    if l < r {
        if pn == hs_len {
            None
        } else {
            Some(caps.update(pn, url.subrange(l, r)))
        }
    } else {
        Some(caps)
    }
}

/// One run of the matcher from a configuration to its verdict. `i` walks the
/// literal template, `j` the URL, `pn` counts filled capture slots and
/// `[l, r)` is the pending capture window; retrying re-enters `Matching` one
/// byte past the last closed capture.
pub open spec fn match_from(
    pat: Seq<u8>,
    hs: Seq<PlaceHolder>,
    url: Seq<u8>,
    st: MatchState,
    i: int,
    j: int,
    pn: int,
    l: int,
    r: int,
    caps: Seq<Seq<u8>>,
) -> Option<Seq<Seq<u8>>>
    decreases url.len() - r, match_rank(st, j, r), url.len() - j,
    when match_inv(hs, url, st, i, j, pn, l, r)
{
    match st {
        MatchState::Normal => {
            if hs.len() > 0 && pn == hs.len() {
                None
            } else if hs.len() > 0 && hs[pn].pos == i {
                if l < r {
                    match_from(
                        pat,
                        hs,
                        url,
                        MatchState::Matching,
                        i,
                        j,
                        pn + 1,
                        j,
                        j,
                        caps.update(pn, url.subrange(l, r)),
                    )
                } else {
                    match_from(pat, hs, url, MatchState::Matching, i, j, pn, j, j, caps)
                }
            } else if j == url.len() {
                if i == pat.len() {
                    accept_result(url, hs.len() as int, pn, l, r, caps)
                } else {
                    None
                }
            } else if i >= pat.len() {
                if l >= r {
                    None
                } else {
                    match_from(
                        pat,
                        hs,
                        url,
                        MatchState::Matching,
                        hs[pn].pos as int,
                        r + 1,
                        pn,
                        l,
                        r,
                        caps,
                    )
                }
            } else if pat[i] == url[j] {
                match_from(pat, hs, url, MatchState::Normal, i + 1, j + 1, pn, l, r, caps)
            } else {
                if l >= r {
                    None
                } else {
                    match_from(
                        pat,
                        hs,
                        url,
                        MatchState::Matching,
                        hs[pn].pos as int,
                        r + 1,
                        pn,
                        l,
                        r,
                        caps,
                    )
                }
            }
        },
        MatchState::Matching => {
            if j == url.len() {
                if i == pat.len() && l < j {
                    accept_result(url, hs.len() as int, pn, l, j, caps)
                } else {
                    None
                }
            } else if pn == hs.len() {
                None
            } else if is_terminator(hs[pn].tp, url[j]) {
                if l < j {
                    match_from(
                        pat,
                        hs,
                        url,
                        MatchState::Normal,
                        i + 1,
                        j + 1,
                        pn + 1,
                        j,
                        j,
                        caps.update(pn, url.subrange(l, j)),
                    )
                } else {
                    match_from(pat, hs, url, MatchState::Normal, i + 1, j + 1, pn, j, j, caps)
                }
            } else if i < pat.len() && pat[i] == url[j] {
                match_from(pat, hs, url, MatchState::Normal, i + 1, j + 1, pn, l, j, caps)
            } else {
                match_from(pat, hs, url, MatchState::Matching, i, j + 1, pn, l, r, caps)
            }
        },
    }
}

/// The empty capture list a match starts from: one empty slot per placeholder.
pub open spec fn empty_caps(n: nat) -> Seq<Seq<u8>> {
    Seq::new(n, |k: int| Seq::<u8>::empty())
}

/// The verdict of matching `url` against a compiled template.
pub open spec fn spec_match(pat: Seq<u8>, hs: Seq<PlaceHolder>, url: Seq<u8>) -> Option<
    Seq<Seq<u8>>,
> {
    match_from(pat, hs, url, MatchState::Normal, 0, 0, 0, 0, 0, empty_caps(hs.len()))
}

/// The byte strings a capture list holds.
pub open spec fn views_of(caps: Seq<Vec<u8>>) -> Seq<Seq<u8>> {
    Seq::new(caps.len(), |k: int| caps[k]@)
}

/// Flushes a still-open capture into slot `pn` and hands the list back.
fn accept_exec(url: &[u8], hs_len: usize, pn: usize, l: usize, r: usize, caps: Vec<Vec<u8>>) -> (res:
    Option<Vec<Vec<u8>>>)
    requires
        l <= r <= url@.len(),
        pn <= hs_len,
        caps@.len() == hs_len,
    ensures
        res is Some <==> accept_result(
            url@,
            hs_len as int,
            pn as int,
            l as int,
            r as int,
            views_of(caps@),
        ) is Some,
        res matches Some(c) ==> accept_result(
            url@,
            hs_len as int,
            pn as int,
            l as int,
            r as int,
            views_of(caps@),
        ) == Some(views_of(c@)) && c@.len() == hs_len,
{
    if l < r {
        if pn == hs_len {
            None
        } else {
            let ghost oldviews = views_of(caps@);
            let cap = slice_to_vec(slice_subrange(url, l, r));
            let mut c = caps;
            c.set(pn, cap);
            proof {
                assert(views_of(c@) =~= oldviews.update(
                    pn as int,
                    url@.subrange(l as int, r as int),
                ));
            }
            Some(c)
        }
    } else {
        Some(caps)
    }
}

/// Whether `b` ends a capture of kind `tp`, decided at run time.
fn is_terminator_exec(tp: PlaceHolderType, b: u8) -> (res: bool)
    ensures
        res == is_terminator(tp, b),
{
    match tp {
        PlaceHolderType::Path => b == QMARK,
        PlaceHolderType::Dir => b == SLASH || b == QMARK,
        PlaceHolderType::Value => b == AMP,
        PlaceHolderType::All => false,
    }
}

impl Pattern {
    /// Matches a URL against this pattern. On success the captures come back
    /// in placeholder order, one slot per placeholder.
    pub fn match_url(&self, url: &[u8]) -> (r: Option<Vec<Vec<u8>>>)
        requires
            self.wf(),
        ensures
            r is Some <==> spec_match(self.url@, self.holders@, url@) is Some,
            r matches Some(caps) ==> spec_match(self.url@, self.holders@, url@) == Some(
                views_of(caps@),
            ) && caps@.len() == self.holders@.len(),
    {
        let pat = &self.url;
        let hs = &self.holders;
        let mut caps: Vec<Vec<u8>> = Vec::new();
        while caps.len() < hs.len()
            invariant
                caps@.len() <= hs@.len(),
                forall|k: int| 0 <= k < caps@.len() ==> caps@[k]@ == Seq::<u8>::empty(),
            decreases hs@.len() - caps@.len(),
        {
            caps.push(Vec::new());
        }
        proof {
            assert(views_of(caps@) =~= empty_caps(hs@.len()));
        }
        let ghost target = spec_match(pat@, hs@, url@);

        let mut st = MatchState::Normal;
        let mut i: usize = 0;
        let mut j: usize = 0;
        let mut pn: usize = 0;
        let mut l: usize = 0;
        let mut r: usize = 0;

        loop
            invariant
                self.wf(),
                pat == &self.url,
                hs == &self.holders,
                match_inv(hs@, url@, st, i as int, j as int, pn as int, l as int, r as int),
                st == MatchState::Normal ==> i <= pat@.len() + 1,
                st == MatchState::Matching ==> i <= pat@.len(),
                caps@.len() == hs@.len(),
                match_from(
                    pat@,
                    hs@,
                    url@,
                    st,
                    i as int,
                    j as int,
                    pn as int,
                    l as int,
                    r as int,
                    views_of(caps@),
                ) == target,
                target == spec_match(self.url@, self.holders@, url@),
            decreases
                    url@.len() - r,
                    match_rank(st, j as int, r as int),
                    url@.len() - j,
        {
            match st {
                MatchState::Normal => {
                    if hs.len() > 0 && pn == hs.len() {
                        return None;
                    }
                    if hs.len() > 0 && hs[pn].pos == i {
                        if l < r {
                            let ghost oldviews = views_of(caps@);
                            let cap = slice_to_vec(slice_subrange(url, l, r));
                            caps.set(pn, cap);
                            proof {
                                assert(views_of(caps@) =~= oldviews.update(
                                    pn as int,
                                    url@.subrange(l as int, r as int),
                                ));
                            }
                            pn = pn + 1;
                        }
                        l = j;
                        r = j;
                        st = MatchState::Matching;
                    } else if j == url.len() {
                        if i == pat.len() {
                            return accept_exec(url, hs.len(), pn, l, r, caps);
                        } else {
                            return None;
                        }
                    } else if i >= pat.len() {
                        if l >= r {
                            return None;
                        } else {
                            i = hs[pn].pos;
                            j = r + 1;
                            st = MatchState::Matching;
                        }
                    } else if pat[i] == url[j] {
                        i = i + 1;
                        j = j + 1;
                    } else {
                        if l >= r {
                            return None;
                        } else {
                            i = hs[pn].pos;
                            j = r + 1;
                            st = MatchState::Matching;
                        }
                    }
                },
                MatchState::Matching => {
                    if j == url.len() {
                        if i == pat.len() && l < j {
                            return accept_exec(url, hs.len(), pn, l, j, caps);
                        } else {
                            return None;
                        }
                    } else if pn == hs.len() {
                        return None;
                    } else if is_terminator_exec(hs[pn].tp, url[j]) {
                        if l < j {
                            let ghost oldviews = views_of(caps@);
                            let cap = slice_to_vec(slice_subrange(url, l, j));
                            caps.set(pn, cap);
                            proof {
                                assert(views_of(caps@) =~= oldviews.update(
                                    pn as int,
                                    url@.subrange(l as int, j as int),
                                ));
                            }
                            pn = pn + 1;
                        }
                        l = j;
                        r = j;
                        i = i + 1;
                        j = j + 1;
                        st = MatchState::Normal;
                    } else if i < pat.len() && pat[i] == url[j] {
                        r = j;
                        i = i + 1;
                        j = j + 1;
                        st = MatchState::Normal;
                    } else {
                        j = j + 1;
                    }
                },
            }
        }
    }
}

/// The matcher on a template without placeholders, from synchronized
/// cursors: it accepts exactly when the template and URL remainders agree.
proof fn lemma_match_literal_from(pat: Seq<u8>, url: Seq<u8>, i: int, j: int)
    requires
        0 <= i <= pat.len(),
        0 <= j <= url.len(),
    ensures
        pat.skip(i) == url.skip(j) ==> match_from(
            pat,
            Seq::<PlaceHolder>::empty(),
            url,
            MatchState::Normal,
            i,
            j,
            0,
            0,
            0,
            empty_caps(0),
        ) == Some(empty_caps(0)),
        pat.skip(i) != url.skip(j) ==> match_from(
            pat,
            Seq::<PlaceHolder>::empty(),
            url,
            MatchState::Normal,
            i,
            j,
            0,
            0,
            0,
            empty_caps(0),
        ) is None,
    decreases url.len() - j,
{
    let hs = Seq::<PlaceHolder>::empty();
    if j == url.len() {
        if i == pat.len() {
            assert(pat.skip(i) =~= url.skip(j));
        } else {
            assert(pat.skip(i).len() > 0);
            assert(url.skip(j).len() == 0);
        }
    } else if i >= pat.len() {
        assert(url.skip(j).len() > 0);
        assert(pat.skip(i).len() == 0);
    } else if pat[i] == url[j] {
        lemma_match_literal_from(pat, url, i + 1, j + 1);
        if pat.skip(i + 1) == url.skip(j + 1) {
            assert(pat.skip(i + 1).len() == url.skip(j + 1).len());
            assert forall|k: int| 0 <= k < pat.skip(i).len() implies pat.skip(i)[k] == url.skip(
                j,
            )[k] by {
                if k > 0 {
                    assert(0 <= k - 1 < pat.skip(i + 1).len());
                    assert(pat.skip(i)[k] == pat.skip(i + 1)[k - 1]);
                    assert(url.skip(j)[k] == url.skip(j + 1)[k - 1]);
                }
            }
            assert(pat.skip(i) =~= url.skip(j));
        } else {
            if pat.skip(i) == url.skip(j) {
                assert forall|k: int| 0 <= k < pat.skip(i + 1).len() implies #[trigger] pat.skip(
                    i + 1,
                )[k] == url.skip(j + 1)[k] by {
                    assert(pat.skip(i + 1)[k] == pat.skip(i)[k + 1]);
                    assert(url.skip(j + 1)[k] == url.skip(j)[k + 1]);
                }
                assert(pat.skip(i + 1) =~= url.skip(j + 1));
            }
        }
    } else {
        assert(pat.skip(i)[0] != url.skip(j)[0]);
    }
}

/// A pattern without placeholders matches a URL exactly when the URL equals
/// the literal template, byte for byte.
pub proof fn lemma_literal_pattern_match(p: Pattern, url: Seq<u8>)
    requires
        p.wf(),
        p.holders@.len() == 0,
    ensures
        spec_match(p.url@, p.holders@, url) is Some <==> url == p.url@,
        url == p.url@ ==> spec_match(p.url@, p.holders@, url) == Some(empty_caps(0)),
{
    assert(p.holders@ =~= Seq::<PlaceHolder>::empty());
    lemma_match_literal_from(p.url@, url, 0, 0);
    assert(p.url@.skip(0) =~= p.url@);
    assert(url.skip(0) =~= url);
}

/// The kind a placeholder label selects, decided byte-for-byte.
fn label_kind_exec(label: &[u8], is_val: bool) -> (tp: PlaceHolderType)
    ensures
        tp == label_kind(label@, is_val),
{
    let t_path: [u8; 4] = [112u8, 97u8, 116u8, 104u8];
    let t_p: [u8; 1] = [112u8];
    let t_dir: [u8; 3] = [100u8, 105u8, 114u8];
    let t_d: [u8; 1] = [100u8];
    let t_value: [u8; 5] = [118u8, 97u8, 108u8, 117u8, 101u8];
    let t_v: [u8; 1] = [118u8];
    let t_all: [u8; 3] = [97u8, 108u8, 108u8];
    let t_a: [u8; 1] = [97u8];
    proof {
        assert(t_path@ =~= seq![112u8, 97u8, 116u8, 104u8]);
        assert(t_p@ =~= seq![112u8]);
        assert(t_dir@ =~= seq![100u8, 105u8, 114u8]);
        assert(t_d@ =~= seq![100u8]);
        assert(t_value@ =~= seq![118u8, 97u8, 108u8, 117u8, 101u8]);
        assert(t_v@ =~= seq![118u8]);
        assert(t_all@ =~= seq![97u8, 108u8, 108u8]);
        assert(t_a@ =~= seq![97u8]);
    }
    if bytes_eq(label, t_path.as_slice()) || bytes_eq(label, t_p.as_slice()) {
        PlaceHolderType::Path
    } else if bytes_eq(label, t_dir.as_slice()) || bytes_eq(label, t_d.as_slice()) {
        PlaceHolderType::Dir
    } else if bytes_eq(label, t_value.as_slice()) || bytes_eq(label, t_v.as_slice()) {
        PlaceHolderType::Value
    } else if bytes_eq(label, t_all.as_slice()) || bytes_eq(label, t_a.as_slice()) {
        PlaceHolderType::All
    } else if is_val {
        PlaceHolderType::Value
    } else {
        PlaceHolderType::Dir
    }
}

} // verus!
