//! The per-request context both proxies thread through their phases: the
//! request summary, header maps, buffered bodies, and a scratch map that
//! carries state from one phase to the next.

use vstd::prelude::*;
use vstd::map::*;
use vstd::string::StringExecFns;
use vstd::string::StrSliceExecFns;
use crate::maps::ExpiringTable;
use crate::trusted::new_uuid;

verus! {

#[derive(Clone, Copy, PartialEq, Eq, Structural, Debug)]
pub enum Method {
    Get,
    Post,
    Put,
    Delete,
    Options,
    Head,
    Other,
}

/// A plain string-to-string map; header maps and the scratch map are these.
/// Callers hand header names in their lowercase form, as HTTP libraries
/// deliver them.
pub struct StrMap {
    t: ExpiringTable<String>,
}

impl View for StrMap {
    type V = Map<Seq<char>, String>;

    closed spec fn view(&self) -> Map<Seq<char>, String> {
        Map::new(|k: Seq<char>| self.t@.contains_key(k), |k: Seq<char>| self.t@[k].0)
    }
}

impl StrMap {
    pub closed spec fn wf(&self) -> bool {
        self.t.wf()
    }

    pub fn new() -> (r: StrMap)
        ensures
            r.wf(),
            r@ =~= Map::<Seq<char>, String>::empty(),
    {
        let r = StrMap { t: ExpiringTable::new() };
        proof {
            assert forall|k: Seq<char>| !r@.contains_key(k) by {}
        }
        r
    }

    pub fn get(&self, key: &str) -> (r: Option<&String>)
        requires
            self.wf(),
        ensures
            match r {
                Some(v) => self@.contains_key(key@) && self@[key@] == *v,
                None => !self@.contains_key(key@),
            },
    {
        self.t.get(key)
    }

    pub fn set(&mut self, key: String, value: String)
        requires
            old(self).wf(),
        ensures
            final(self).wf(),
            final(self)@ == old(self)@.insert(key@, value),
    {
        let ghost kv = key@;
        let ghost vv = value;
        self.t.insert(key, value, 0);
        proof {
            assert(final(self)@ =~= old(self)@.insert(kv, vv));
        }
    }

    pub fn remove(&mut self, key: &str)
        requires
            old(self).wf(),
        ensures
            final(self).wf(),
            final(self)@ == old(self)@.remove(key@),
    {
        self.t.remove(key);
        proof {
            assert(final(self)@ =~= old(self)@.remove(key@));
        }
    }

}

/// Everything the request line and query string say about a request.
pub struct Layer8ContextRequestSummary {
    pub method: Method,
    pub scheme: String,
    pub host: String,
    pub path: String,
    pub params: StrMap,
}

impl Layer8ContextRequestSummary {
    pub open spec fn wf(&self) -> bool {
        self.params.wf()
    }

    pub fn new() -> (r: Layer8ContextRequestSummary)
        ensures
            r.wf(),
            r.method == Method::Get,
            r.scheme@ =~= Seq::<char>::empty(),
            r.host@ =~= Seq::<char>::empty(),
            r.path@ =~= Seq::<char>::empty(),
            r.params@ =~= Map::<Seq<char>, String>::empty(),
    {
        Layer8ContextRequestSummary {
            method: Method::Get,
            scheme: String::new(),
            host: String::new(),
            path: String::new(),
            params: StrMap::new(),
        }
    }
}

pub struct Layer8ContextRequest {
    pub summary: Layer8ContextRequestSummary,
    pub header: StrMap,
    pub body: Vec<u8>,
}

pub struct Layer8ContextResponse {
    pub status: u16,
    pub header: StrMap,
    pub body: Vec<u8>,
}

/// Default cap on a buffered body; anything longer is refused with `413`.
pub const DEFAULT_BODY_LIMIT: usize = 8388608;

pub struct Layer8Context {
    pub request: Layer8ContextRequest,
    pub response: Layer8ContextResponse,
    pub memory: StrMap,
    /// Largest request or response body this context will buffer.
    pub body_limit: usize,
}

impl Layer8Context {
    pub open spec fn wf(&self) -> bool {
        &&& self.request.summary.wf()
        &&& self.request.header.wf()
        &&& self.response.header.wf()
        &&& self.memory.wf()
    }

    /// The scratch map that carries state across phases.
    pub open spec fn scratch(&self) -> Map<Seq<char>, String> {
        self.memory@
    }

    pub open spec fn req_body(&self) -> Seq<u8> {
        self.request.body@
    }

    pub open spec fn resp_body(&self) -> Seq<u8> {
        self.response.body@
    }

    pub fn new() -> (r: Layer8Context)
        ensures
            r.wf(),
            r.scratch() =~= Map::<Seq<char>, String>::empty(),
            r.req_body() =~= Seq::<u8>::empty(),
            r.resp_body() =~= Seq::<u8>::empty(),
            r.request.header@ =~= Map::<Seq<char>, String>::empty(),
            r.response.header@ =~= Map::<Seq<char>, String>::empty(),
            r.request.summary.method == Method::Get,
            r.request.summary.scheme@ =~= Seq::<char>::empty(),
            r.request.summary.host@ =~= Seq::<char>::empty(),
            r.request.summary.path@ =~= Seq::<char>::empty(),
            r.request.summary.params@ =~= Map::<Seq<char>, String>::empty(),
            r.response.status == 200,
            r.body_limit == DEFAULT_BODY_LIMIT,
    {
        Layer8Context {
            request: Layer8ContextRequest {
                summary: Layer8ContextRequestSummary::new(),
                header: StrMap::new(),
                body: Vec::new(),
            },
            response: Layer8ContextResponse {
                status: 200,
                header: StrMap::new(),
                body: Vec::new(),
            },
            memory: StrMap::new(),
            body_limit: DEFAULT_BODY_LIMIT,
        }
    }

    pub fn method(&self) -> (r: Method)
        ensures
            r == self.request.summary.method,
    {
        self.request.summary.method
    }

    pub fn path(&self) -> (r: &String)
        ensures
            r == self.request.summary.path,
    {
        &self.request.summary.path
    }

    pub fn param(&self, key: &str) -> (r: Option<&String>)
        requires
            self.wf(),
        ensures
            match r {
                Some(v) => self.request.summary.params@.contains_key(key@)
                    && self.request.summary.params@[key@] == *v,
                None => !self.request.summary.params@.contains_key(key@),
            },
    {
        self.request.summary.params.get(key)
    }

    /// Record one request header; names arrive lowercase.
    pub fn set_request_header(&mut self, key: String, val: String)
        requires
            old(self).wf(),
        ensures
            final(self).wf(),
            final(self).request.header@ == old(self).request.header@.insert(key@, val),
            final(self).request.summary == old(self).request.summary,
            final(self).response == old(self).response,
            final(self).scratch() == old(self).scratch(),
            final(self).req_body() == old(self).req_body(),
            final(self).resp_body() == old(self).resp_body(),
    {
        self.request.header.set(key, val);
    }

    pub fn get_request_header(&self, key: &str) -> (r: Option<&String>)
        requires
            self.wf(),
        ensures
            match r {
                Some(v) => self.request.header@.contains_key(key@) && self.request.header@[key@]
                    == *v,
                None => !self.request.header@.contains_key(key@),
            },
    {
        self.request.header.get(key)
    }

    pub fn insert_response_header(&mut self, key: &str, val: &str)
        requires
            old(self).wf(),
        ensures
            final(self).wf(),
            final(self).response.header@ == old(self).response.header@.insert(
                key@,
                final(self).response.header@[key@],
            ),
            final(self).response.header@.contains_key(key@) && final(self).response.header@[key@]@
                == val@,
            final(self).request == old(self).request,
            final(self).response.status == old(self).response.status,
            final(self).scratch() == old(self).scratch(),
            final(self).req_body() == old(self).req_body(),
            final(self).resp_body() == old(self).resp_body(),
    {
        let k = key.to_owned();
        let v = val.to_owned();
        self.response.header.set(k, v);
    }

    pub fn get_response_header(&self, key: &str) -> (r: Option<&String>)
        requires
            self.wf(),
        ensures
            match r {
                Some(v) => self.response.header@.contains_key(key@) && self.response.header@[key@]
                    == *v,
                None => !self.response.header@.contains_key(key@),
            },
    {
        self.response.header.get(key)
    }

    pub fn set_request_body(&mut self, body: Vec<u8>)
        ensures
            final(self).req_body() == body@,
            final(self).wf() == old(self).wf(),
            final(self).request.summary == old(self).request.summary,
            final(self).request.header == old(self).request.header,
            final(self).response == old(self).response,
            final(self).scratch() == old(self).scratch(),
            final(self).resp_body() == old(self).resp_body(),
            final(self).body_limit == old(self).body_limit,
    {
        self.request.body = body;
    }

    /// Absorb one streamed request chunk; refuses growth past the cap.
    pub fn extend_request_body(&mut self, chunk: &[u8]) -> (r: bool)
        ensures
            r == (old(self).req_body().len() + chunk@.len() <= old(self).body_limit),
            r ==> final(self).req_body() == old(self).req_body() + chunk@,
            !r ==> final(self).req_body() == old(self).req_body(),
            final(self).wf() == old(self).wf(),
            final(self).request.summary == old(self).request.summary,
            final(self).request.header == old(self).request.header,
            final(self).response == old(self).response,
            final(self).scratch() == old(self).scratch(),
            final(self).resp_body() == old(self).resp_body(),
            final(self).body_limit == old(self).body_limit,
    {
        if chunk.len() <= self.body_limit && self.request.body.len() <= self.body_limit
            - chunk.len() {
            self.request.body.extend_from_slice(chunk);
            true
        } else {
            false
        }
    }

    /// Absorb a request chunk as the phase machine sees it: a chunk that
    /// would push the body past the cap is refused with the status to send.
    pub fn absorb_request_chunk(&mut self, chunk: &[u8]) -> (r: Option<u16>)
        ensures
            r is None <==> old(self).req_body().len() + chunk@.len() <= old(self).body_limit,
            r is None ==> final(self).req_body() == old(self).req_body() + chunk@,
            r matches Some(status) ==> status == 413 && final(self).req_body() == old(
                self,
            ).req_body(),
            final(self).wf() == old(self).wf(),
            final(self).request.summary == old(self).request.summary,
            final(self).request.header == old(self).request.header,
            final(self).response == old(self).response,
            final(self).scratch() == old(self).scratch(),
            final(self).resp_body() == old(self).resp_body(),
            final(self).body_limit == old(self).body_limit,
    {
        if self.extend_request_body(chunk) {
            None
        } else {
            Some(413)
        }
    }

    /// The response-side twin of `absorb_request_chunk`.
    pub fn absorb_response_chunk(&mut self, chunk: &[u8]) -> (r: Option<u16>)
        ensures
            r is None <==> old(self).resp_body().len() + chunk@.len() <= old(self).body_limit,
            r is None ==> final(self).resp_body() == old(self).resp_body() + chunk@,
            r matches Some(status) ==> status == 413 && final(self).resp_body() == old(
                self,
            ).resp_body(),
            final(self).wf() == old(self).wf(),
            final(self).request == old(self).request,
            final(self).scratch() == old(self).scratch(),
            final(self).req_body() == old(self).req_body(),
            final(self).body_limit == old(self).body_limit,
    {
        if self.extend_response_body(chunk) {
            None
        } else {
            Some(413)
        }
    }

    pub fn get_request_body(&self) -> (r: &Vec<u8>)
        ensures
            r@ == self.req_body(),
    {
        &self.request.body
    }

    pub fn set_response_body(&mut self, body: Vec<u8>)
        ensures
            final(self).resp_body() == body@,
            final(self).wf() == old(self).wf(),
            final(self).request == old(self).request,
            final(self).response.status == old(self).response.status,
            final(self).response.header == old(self).response.header,
            final(self).scratch() == old(self).scratch(),
            final(self).req_body() == old(self).req_body(),
            final(self).body_limit == old(self).body_limit,
    {
        self.response.body = body;
    }

    /// Absorb one streamed response chunk; refuses growth past the cap.
    pub fn extend_response_body(&mut self, chunk: &[u8]) -> (r: bool)
        ensures
            r == (old(self).resp_body().len() + chunk@.len() <= old(self).body_limit),
            r ==> final(self).resp_body() == old(self).resp_body() + chunk@,
            !r ==> final(self).resp_body() == old(self).resp_body(),
            final(self).wf() == old(self).wf(),
            final(self).request == old(self).request,
            final(self).response.status == old(self).response.status,
            final(self).response.header == old(self).response.header,
            final(self).scratch() == old(self).scratch(),
            final(self).req_body() == old(self).req_body(),
            final(self).body_limit == old(self).body_limit,
    {
        if chunk.len() <= self.body_limit && self.response.body.len() <= self.body_limit
            - chunk.len() {
            self.response.body.extend_from_slice(chunk);
            true
        } else {
            false
        }
    }

    pub fn get_response_body(&self) -> (r: &Vec<u8>)
        ensures
            r@ == self.resp_body(),
    {
        &self.response.body
    }

    pub fn get(&self, key: &str) -> (r: Option<&String>)
        requires
            self.wf(),
        ensures
            match r {
                Some(v) => self.scratch().contains_key(key@) && self.scratch()[key@] == *v,
                None => !self.scratch().contains_key(key@),
            },
    {
        self.memory.get(key)
    }

    pub fn set(&mut self, key: String, value: String)
        requires
            old(self).wf(),
        ensures
            final(self).wf(),
            final(self).scratch() == old(self).scratch().insert(key@, value),
            final(self).request == old(self).request,
            final(self).response == old(self).response,
            final(self).req_body() == old(self).req_body(),
            final(self).resp_body() == old(self).resp_body(),
            final(self).body_limit == old(self).body_limit,
    {
        self.memory.set(key, value);
    }

    pub fn set_request_summary(&mut self, summary: Layer8ContextRequestSummary)
        requires
            summary.wf(),
        ensures
            final(self).request.summary == summary,
            final(self).wf() == (old(self).request.header.wf() && old(self).response.header.wf()
                && old(self).memory.wf()),
            final(self).request.header == old(self).request.header,
            final(self).response == old(self).response,
            final(self).scratch() == old(self).scratch(),
            final(self).req_body() == old(self).req_body(),
            final(self).resp_body() == old(self).resp_body(),
    {
        self.request.summary = summary;
    }

    /// Pick the request's correlation id: an `x-correlation-id` header wins,
    /// then `x-request-id`, else a fresh identifier; the choice is stored in
    /// the scratch map.
    pub fn set_correlation_id(&mut self) -> (r: String)
        requires
            old(self).wf(),
        ensures
            final(self).wf(),
            old(self).request.header@.contains_key("x-correlation-id"@) ==> r@ == old(
                self,
            ).request.header@["x-correlation-id"@]@,
            !old(self).request.header@.contains_key("x-correlation-id"@) && old(
                self,
            ).request.header@.contains_key("x-request-id"@) ==> r@ == old(
                self,
            ).request.header@["x-request-id"@]@,
            final(self).scratch().contains_key("x-correlation-id"@) && final(self).scratch()[
                "x-correlation-id"@]@ == r@,
            final(self).request == old(self).request,
            final(self).response == old(self).response,
            final(self).req_body() == old(self).req_body(),
            final(self).resp_body() == old(self).resp_body(),
    {
        let correlation_id: String;
        match self.request.header.get("x-correlation-id") {
            Some(cid) => {
                correlation_id = cid.clone();
            },
            None => {
                match self.request.header.get("x-request-id") {
                    Some(cid) => {
                        correlation_id = cid.clone();
                    },
                    None => {
                        correlation_id = new_uuid();
                    },
                }
            },
        }
        let stored = correlation_id.clone();
        self.memory.set("x-correlation-id".to_owned(), stored);
        correlation_id
    }

    pub fn get_correlation_id(&self) -> (r: String)
        requires
            self.wf(),
        ensures
            self.scratch().contains_key("x-correlation-id"@) ==> r@ == self.scratch()[
                "x-correlation-id"@]@,
            !self.scratch().contains_key("x-correlation-id"@) ==> r@ =~= Seq::<char>::empty(),
    {
        match self.memory.get("x-correlation-id") {
            Some(v) => v.clone(),
            None => String::new(),
        }
    }

    /// The client-facing base URL, `scheme://host`.
    pub fn get_client_base_url(&self) -> (r: String)
        ensures
            r@ == self.request.summary.scheme@ + "://"@ + self.request.summary.host@,
    {
        let mut out = self.request.summary.scheme.clone();
        out.append("://");
        out.append(self.request.summary.host.as_str());
        out
    }
}


// ---------------------------------------------------------------------------
// The query string: `k=v` pairs joined by `&`; a later pair wins; a piece
// without `=` binds nothing.
// ---------------------------------------------------------------------------

/// The binding one `k=v` piece makes, split at its first `=`.
pub open spec fn query_pair(seg: Seq<char>) -> Option<(Seq<char>, Seq<char>)> {
    if exists|i: int|
        0 <= i < seg.len() && seg[i] == '=' && (forall|j: int| 0 <= j < i ==> seg[j] != '=') {
        let i = choose|i: int|
            0 <= i < seg.len() && seg[i] == '=' && (forall|j: int| 0 <= j < i ==> seg[j] != '=');
        Some((seg.take(i), seg.skip(i + 1)))
    } else {
        None
    }
}

pub open spec fn pair_map(seg: Seq<char>) -> Map<Seq<char>, Seq<char>> {
    match query_pair(seg) {
        Some(kv) => Map::empty().insert(kv.0, kv.1),
        None => Map::empty(),
    }
}

/// The bindings a whole query string makes.
pub open spec fn query_map(q: Seq<char>) -> Map<Seq<char>, Seq<char>>
    decreases q.len(),
{
    if exists|i: int|
        0 <= i < q.len() && q[i] == '&' && (forall|j: int| 0 <= j < i ==> q[j] != '&') {
        let i = choose|i: int|
            0 <= i < q.len() && q[i] == '&' && (forall|j: int| 0 <= j < i ==> q[j] != '&');
        pair_map(q.take(i)).union_prefer_right(query_map(q.skip(i + 1)))
    } else {
        pair_map(q)
    }
}

/// A string map, viewed with its values as text.
pub open spec fn text_view(m: Map<Seq<char>, String>) -> Map<Seq<char>, Seq<char>> {
    Map::new(|k: Seq<char>| m.contains_key(k), |k: Seq<char>| m[k]@)
}

proof fn lemma_query_map_first_amp(q: Seq<char>, i: int)
    requires
        0 <= i < q.len(),
        q[i] == '&',
        forall|j: int| 0 <= j < i ==> q[j] != '&',
    ensures
        query_map(q) == pair_map(q.take(i)).union_prefer_right(query_map(q.skip(i + 1))),
{
    let w = choose|w: int|
        0 <= w < q.len() && q[w] == '&' && (forall|j: int| 0 <= j < w ==> q[j] != '&');
    assert(w == i);
}

proof fn lemma_query_map_no_amp(q: Seq<char>)
    requires
        forall|j: int| 0 <= j < q.len() ==> q[j] != '&',
    ensures
        query_map(q) == pair_map(q),
{
    if exists|i: int|
        0 <= i < q.len() && q[i] == '&' && (forall|j: int| 0 <= j < i ==> q[j] != '&') {
        let w = choose|w: int|
            0 <= w < q.len() && q[w] == '&' && (forall|j: int| 0 <= j < w ==> q[j] != '&');
        assert(false);
    }
}

proof fn lemma_query_pair_first_eq(seg: Seq<char>, i: int)
    requires
        0 <= i < seg.len(),
        seg[i] == '=',
        forall|j: int| 0 <= j < i ==> seg[j] != '=',
    ensures
        query_pair(seg) == Some((seg.take(i), seg.skip(i + 1))),
{
    let w = choose|w: int|
        0 <= w < seg.len() && seg[w] == '=' && (forall|j: int| 0 <= j < w ==> seg[j] != '=');
    assert(w == i);
}

proof fn lemma_query_pair_no_eq(seg: Seq<char>)
    requires
        forall|j: int| 0 <= j < seg.len() ==> seg[j] != '=',
    ensures
        query_pair(seg) is None,
{
    if exists|i: int|
        0 <= i < seg.len() && seg[i] == '=' && (forall|j: int| 0 <= j < i ==> seg[j] != '=') {
        let w = choose|w: int|
            0 <= w < seg.len() && seg[w] == '=' && (forall|j: int| 0 <= j < w ==> seg[j] != '=');
        assert(false);
    }
}

proof fn lemma_union_single(a: Map<Seq<char>, Seq<char>>, k: Seq<char>, v: Seq<char>)
    ensures
        a.union_prefer_right(Map::empty().insert(k, v)) == a.insert(k, v),
{
    assert(a.union_prefer_right(Map::empty().insert(k, v)) =~= a.insert(k, v));
}

proof fn lemma_union_empty_each(a: Map<Seq<char>, Seq<char>>)
    ensures
        a.union_prefer_right(Map::empty()) == a,
        Map::empty().union_prefer_right(a) == a,
{
    assert(a.union_prefer_right(Map::empty()) =~= a);
    assert(Map::<Seq<char>, Seq<char>>::empty().union_prefer_right(a) =~= a);
}

proof fn lemma_union_assoc(
    a: Map<Seq<char>, Seq<char>>,
    b: Map<Seq<char>, Seq<char>>,
    c: Map<Seq<char>, Seq<char>>,
)
    ensures
        a.union_prefer_right(b.union_prefer_right(c)) == a.union_prefer_right(b).union_prefer_right(
            c,
        ),
{
    assert(a.union_prefer_right(b.union_prefer_right(c)) =~= a.union_prefer_right(
        b,
    ).union_prefer_right(c));
}

fn find_char(s: &str, from: usize, c: char) -> (r: Option<usize>)
    requires
        from <= s@.len(),
    ensures
        match r {
            Some(i) => from <= i < s@.len() && s@[i as int] == c && (forall|j: int|
                from <= j < i ==> s@[j] != c),
            None => forall|j: int| from <= j < s@.len() ==> s@[j] != c,
        },
{
    let n = s.unicode_len();
    let mut i: usize = from;
    while i < n
        invariant
            from <= i <= n == s@.len(),
            forall|j: int| from <= j < i ==> s@[j] != c,
        decreases n - i,
    {
        if s.get_char(i) == c {
            return Some(i);
        }
        i = i + 1;
    }
    None
}

/// One `k=v` piece into the map; a piece without `=` binds nothing.
fn bind_pair(params: &mut StrMap, seg: &str)
    requires
        old(params).wf(),
    ensures
        final(params).wf(),
        text_view(final(params)@) == text_view(old(params)@).union_prefer_right(pair_map(seg@)),
{
    match find_char(seg, 0, '=') {
        Some(i) => {
            let n = seg.unicode_len();
            let key = seg.substring_char(0, i).to_owned();
            let val = seg.substring_char(i + 1, n).to_owned();
            proof {
                lemma_query_pair_first_eq(seg@, i as int);
            }
            let ghost kv = key@;
            let ghost vv = val@;
            params.set(key, val);
            proof {
                lemma_union_single(text_view(old(params)@), kv, vv);
                assert(text_view(params@) =~= text_view(old(params)@).insert(kv, vv));
            }
        },
        None => {
            proof {
                lemma_query_pair_no_eq(seg@);
                lemma_union_empty_each(text_view(params@));
            }
        },
    }
}

/// Parse a query string: every `k=v` piece binds, the last binding of a key
/// wins, and that is all the map holds.
#[verifier::rlimit(100)]
#[verifier::spinoff_prover]
pub fn parse_query(query: &str) -> (r: StrMap)
    ensures
        r.wf(),
        text_view(r@) == query_map(query@),
{
    let mut params = StrMap::new();
    let n = query.unicode_len();
    let mut pos: usize = 0;
    proof {
        assert(text_view(params@) =~= Map::<Seq<char>, Seq<char>>::empty());
        lemma_union_empty_each(query_map(query@));
        assert(query@.skip(0) =~= query@);
    }
    while pos < n
        invariant
            pos <= n == query@.len(),
            params.wf(),
            text_view(params@).union_prefer_right(query_map(query@.skip(pos as int)))
                == query_map(query@),
        decreases n - pos,
    {
        let tail_start = pos;
        let (seg_end, next) = match find_char(query, pos, '&') {
            Some(i) => (i, i + 1),
            None => (n, n),
        };
        let seg = query.substring_char(pos, seg_end);
        let ghost tail = query@.skip(pos as int);
        proof {
            if seg_end < n {
                assert(tail[seg_end - pos] == '&');
                assert(forall|j: int| 0 <= j < seg_end - pos ==> tail[j] != '&');
                lemma_query_map_first_amp(tail, seg_end - pos);
                assert(tail.take(seg_end - pos) =~= seg@);
                assert(tail.skip(seg_end - pos + 1) =~= query@.skip(next as int));
            } else {
                assert(forall|j: int| 0 <= j < tail.len() ==> tail[j] != '&');
                lemma_query_map_no_amp(tail);
                assert(tail =~= seg@);
                assert(query_map(query@.skip(next as int)) =~= query_map(
                    Seq::<char>::empty(),
                )) by {
                    assert(query@.skip(next as int) =~= Seq::<char>::empty());
                }
            }
        }
        let ghost before = params@;
        bind_pair(&mut params, seg);
        proof {
            lemma_union_assoc(
                text_view(before),
                pair_map(seg@),
                query_map(query@.skip(next as int)),
            );
            if seg_end == n {
                lemma_query_pair_no_eq(Seq::<char>::empty());
                assert(query_map(Seq::<char>::empty()) =~= Map::<Seq<char>, Seq<char>>::empty())
                    by {
                    lemma_query_map_no_amp(Seq::<char>::empty());
                }
                lemma_union_empty_each(pair_map(seg@));
                lemma_union_empty_each(text_view(params@));
            }
        }
        pos = next;
    }
    proof {
        assert(query@.skip(pos as int) =~= Seq::<char>::empty());
        lemma_query_map_no_amp(Seq::<char>::empty());
        lemma_query_pair_no_eq(Seq::<char>::empty());
        assert(query_map(Seq::<char>::empty()) =~= Map::<Seq<char>, Seq<char>>::empty());
        lemma_union_empty_each(text_view(params@));
    }
    params
}

} // verus!
