use vstd::prelude::*;

use crate::error::RouteError;
use crate::pattern::{spec_compile, spec_match, views_of, Pattern};
use crate::request::Method;

verus! {

/// The bit a method owns in a `MethodSet`.
pub open spec fn method_index(m: Method) -> u16 {
    match m {
        Method::GET => 0,
        Method::POST => 1,
        Method::PUT => 2,
        Method::DELETE => 3,
        Method::PATCH => 4,
        Method::HEAD => 5,
        Method::OPTIONS => 6,
        Method::TRACE => 7,
        Method::CONNECT => 8,
    }
}

/// The bit a method owns, computed at run time.
fn method_index_exec(m: Method) -> (r: u16)
    ensures
        r == method_index(m),
        r < 9,
{
    match m {
        Method::GET => 0,
        Method::POST => 1,
        Method::PUT => 2,
        Method::DELETE => 3,
        Method::PATCH => 4,
        Method::HEAD => 5,
        Method::OPTIONS => 6,
        Method::TRACE => 7,
        Method::CONNECT => 8,
    }
}

/// Distinct methods own distinct bits.
proof fn lemma_method_index_injective(m1: Method, m2: Method)
    ensures
        (method_index(m1) == method_index(m2)) == (m1 == m2),
{
}

/// The set of methods a route answers to: one bit per method.
#[derive(Debug, PartialEq, Eq, Structural, Clone, Copy)]
pub struct MethodSet {
    pub bits: u16,
}

impl MethodSet {
    /// Whether the set holds `m`.
    pub open spec fn spec_contains(self, m: Method) -> bool {
        self.bits & (1u16 << method_index(m)) != 0
    }

    /// The empty set.
    pub fn new() -> (r: Self)
        ensures
            forall|m: Method| !r.spec_contains(m),
    {
        let r = MethodSet { bits: 0u16 };
        proof {
            assert forall|m: Method| !r.spec_contains(m) by {
                let i = method_index(m);
                assert(0u16 & (1u16 << i) == 0) by (bit_vector);
            }
        }
        r
    }

    /// Puts `method` into the set; no other method's membership moves.
    pub fn insert(&mut self, method: Method)
        ensures
            forall|m2: Method|
                final(self).spec_contains(m2) == (m2 == method || old(self).spec_contains(m2)),
    {
        let i = method_index_exec(method);
        self.bits = self.bits | (1u16 << i);
        proof {
            let ob = old(self).bits;
            assert forall|m2: Method|
                final(self).spec_contains(m2) == (m2 == method || old(self).spec_contains(
                    m2,
                )) by {
                let k = method_index(m2);
                lemma_method_index_injective(m2, method);
                assert(i < 9 && k < 9 ==> (((ob | (1u16 << i)) & (1u16 << k) != 0) == (i == k || (
                ob & (1u16 << k) != 0)))) by (bit_vector);
            }
        }
    }

    /// Takes `method` out of the set; no other method's membership moves.
    pub fn remove(&mut self, method: Method)
        ensures
            forall|m2: Method|
                final(self).spec_contains(m2) == (m2 != method && old(self).spec_contains(m2)),
    {
        let i = method_index_exec(method);
        self.bits = self.bits & !(1u16 << i);
        proof {
            let ob = old(self).bits;
            assert forall|m2: Method|
                final(self).spec_contains(m2) == (m2 != method && old(self).spec_contains(
                    m2,
                )) by {
                let k = method_index(m2);
                lemma_method_index_injective(m2, method);
                assert(i < 9 && k < 9 ==> (((ob & !(1u16 << i)) & (1u16 << k) != 0) == (i != k && (
                ob & (1u16 << k) != 0)))) by (bit_vector);
            }
        }
    }

    /// Whether the set holds `method`.
    pub fn contains(&self, method: Method) -> (r: bool)
        ensures
            r == self.spec_contains(method),
    {
        let i = method_index_exec(method);
        self.bits & (1u16 << i) != 0
    }
}

/// One registered route: a compiled pattern and the methods it answers to.
/// The handler registered with it lives outside the library, keyed by the
/// route's position in the table.
pub struct Route {
    pub pat: Pattern,
    pub methods: MethodSet,
}

/// Whether the route's pattern matches the URL, whatever the method.
pub open spec fn url_hit(rt: Route, url: Seq<u8>) -> bool {
    spec_match(rt.pat.url@, rt.pat.holders@, url) is Some
}

/// Whether the route answers to the method and its pattern matches the URL.
pub open spec fn candidate_hit(rt: Route, m: Method, url: Seq<u8>) -> bool {
    rt.methods.spec_contains(m) && url_hit(rt, url)
}

/// The first route index at or after `k` that answers to the method and
/// matches the URL.
pub open spec fn first_hit(routes: Seq<Route>, m: Method, url: Seq<u8>, k: int) -> Option<int>
    decreases routes.len() - k,
    when 0 <= k <= routes.len()
{
    if k == routes.len() {
        None
    } else if candidate_hit(routes[k], m, url) {
        Some(k)
    } else {
        first_hit(routes, m, url, k + 1)
    }
}

/// Whether some route's pattern matches the URL, whatever the method.
pub open spec fn any_url_hit(routes: Seq<Route>, url: Seq<u8>) -> bool {
    exists|j: int| 0 <= j < routes.len() && #[trigger] url_hit(routes[j], url)
}

/// An ordered table of routes; insertion order decides between candidates.
pub struct Router {
    pub routes: Vec<Route>,
}

impl Router {
    /// Validity of the table: every compiled pattern in it is well-formed.
    pub open spec fn wf(&self) -> bool {
        forall|k: int| 0 <= k < self.routes@.len() ==> (#[trigger] self.routes@[k]).pat.wf()
    }

    /// An empty table.
    pub fn new() -> (r: Self)
        ensures
            r.routes@.len() == 0,
            r.wf(),
    {
        Router { routes: Vec::new() }
    }

    /// Compiles `pattern` and appends a route for it; a template the
    /// compiler rejects leaves the table untouched and reports failure.
    pub fn register(&mut self, pattern: &[u8], methods: MethodSet) -> (r: bool)
        requires
            old(self).wf(),
        ensures
            final(self).wf(),
            r == (spec_compile(pattern@) is Some),
            r ==> final(self).routes@.len() == old(self).routes@.len() + 1 && (forall|j: int|
                0 <= j < old(self).routes@.len() ==> final(self).routes@[j] == old(
                    self,
                ).routes@[j]) && final(self).routes@.last().methods == methods && spec_compile(
                pattern@,
            ) == Some(
                (
                    final(self).routes@.last().pat.url@,
                    final(self).routes@.last().pat.holders@,
                ),
            ),
            !r ==> *final(self) == *old(self),
    {
        match Pattern::from_str(pattern) {
            None => false,
            Some(pat) => {
                self.routes.push(Route { pat, methods });
                true
            },
        }
    }

    /// Scans the table in insertion order: the first route that answers to
    /// the method and matches the URL wins and its index and captures come
    /// back. With no winner, the verdict is `MethodNotAllowed` when some
    /// route's pattern matches the URL all the same, else `NotFound`.
    pub fn handle(&self, method: Method, url: &[u8]) -> (r: Result<
        (usize, Vec<Vec<u8>>),
        RouteError,
    >)
        requires
            self.wf(),
        ensures
            r matches Ok(pair) ==> first_hit(self.routes@, method, url@, 0) == Some(pair.0 as int)
                && spec_match(
                self.routes@[pair.0 as int].pat.url@,
                self.routes@[pair.0 as int].pat.holders@,
                url@,
            ) == Some(views_of(pair.1@)) && pair.1@.len() == self.routes@[pair.0 as int].pat.holders@.len(),
            r matches Err(e) ==> first_hit(self.routes@, method, url@, 0) is None && e == (
            if any_url_hit(self.routes@, url@) {
                RouteError::MethodNotAllowed
            } else {
                RouteError::NotFound
            }),
    {
        let mut k: usize = 0;
        let mut any: bool = false;
        while k < self.routes.len()
            invariant
                self.wf(),
                k <= self.routes@.len(),
                first_hit(self.routes@, method, url@, k as int) == first_hit(
                    self.routes@,
                    method,
                    url@,
                    0,
                ),
                any == exists|j: int|
                    0 <= j < k && #[trigger] url_hit(self.routes@[j], url@),
            decreases self.routes@.len() - k,
        {
            let rt = &self.routes[k];
            match rt.pat.match_url(url) {
                Some(caps) => {
                    proof {
                        assert(url_hit(self.routes@[k as int], url@));
                    }
                    if rt.methods.contains(method) {
                        proof {
                            assert(candidate_hit(self.routes@[k as int], method, url@));
                        }
                        return Ok((k, caps));
                    }
                    any = true;
                },
                None => {
                    proof {
                        assert(!url_hit(self.routes@[k as int], url@));
                        if any {
                            let j = choose|j: int|
                                0 <= j < k && #[trigger] url_hit(self.routes@[j], url@);
                            assert(0 <= j < k + 1 && url_hit(self.routes@[j], url@));
                        }
                    }
                },
            }
            k = k + 1;
        }
        if any {
            Err(RouteError::MethodNotAllowed)
        } else {
            Err(RouteError::NotFound)
        }
    }
}

/// First match wins: whenever some route both answers to the method and
/// matches the URL, the route the table chooses is never a later one.
pub proof fn lemma_first_match_wins(routes: Seq<Route>, m: Method, url: Seq<u8>, k1: int)
    requires
        0 <= k1 < routes.len(),
        candidate_hit(routes[k1], m, url),
    ensures
        first_hit(routes, m, url, 0) matches Some(i) && 0 <= i <= k1,
{
    lemma_first_hit_le(routes, m, url, 0, k1);
}

proof fn lemma_first_hit_le(routes: Seq<Route>, m: Method, url: Seq<u8>, k: int, k1: int)
    requires
        0 <= k <= k1 < routes.len(),
        candidate_hit(routes[k1], m, url),
    ensures
        first_hit(routes, m, url, k) matches Some(i) && k <= i <= k1,
    decreases k1 - k,
{
    if !candidate_hit(routes[k], m, url) {
        lemma_first_hit_le(routes, m, url, k + 1, k1);
    }
}

} // verus!
