//! The forward proxy: configuration, the session table that binds a client
//! token to its reverse proxy, and the per-phase decisions of the request
//! pipeline.  Network calls happen outside; each phase function here either
//! decides a response outright or says what outside work is needed next.

use vstd::prelude::*;
use vstd::string::StrSliceExecFns;
use vstd::utf8::encode_utf8;
use crate::ctx::Layer8Context;
use crate::ctx::Method;
use crate::ctx::StrMap;
use crate::maps::ExpiringTable;
use crate::maps::str_eq;
use crate::router::APIHandlerResponse;
use crate::wire::ErrorResponse;
use crate::wire::FpHealthcheckSuccess;
use crate::wire::FpHealthcheckError;
use crate::wire::ser_str_obj;
use crate::keys::k_error;
use crate::keys::k_fp_healthcheck_success;
use crate::keys::k_fp_healthcheck_error;
use vstd::utf8::decode_utf8_encode_utf8;
use crate::jwt::printable_claims;
use crate::jwt::lemma_claims_doc_signable;
use crate::jwt::ser_claims;
use crate::trusted::jwt_verify;

verus! {

pub struct FPConfig {
    pub listen_address: String,
    pub listen_port: u16,
    pub log_config: LogConfig,
    pub tls_config: TlsConfig,
    pub handler_config: HandlerConfig,
    pub influxdb_config: crate::stats::InfluxDBConfig,
}

pub struct LogConfig {
    pub log_level: String,
    /// `json` unless `plain`.
    pub log_format: String,
    /// `console` or a directory.
    pub log_path: String,
    /// Required when `log_path` is a directory.
    pub log_filename: String,
}

pub struct HandlerConfig {
    pub jwt_virtual_connection_key: Vec<u8>,
    pub jwt_exp_in_hours: i64,
    pub auth_access_token: String,
    pub auth_get_certificate_url: String,
}

/// PEM material for the client side of the mutually-authenticated hop.
pub struct TlsConfig {
    pub enable_tls: bool,
    pub ca_cert: String,
    pub cert: String,
    pub key: String,
}

pub struct HeaderKeys;

impl HeaderKeys {
    pub fn int_rp_jwt() -> (r: &'static str)
        ensures
            r@ == "int_rp_jwt"@,
    {
        "int_rp_jwt"
    }

    pub fn int_fp_jwt() -> (r: &'static str)
        ensures
            r@ == "int_fp_jwt"@,
    {
        "int_fp_jwt"
    }

    pub fn fp_rp_jwt() -> (r: &'static str)
        ensures
            r@ == "fp_rp_jwt"@,
    {
        "fp_rp_jwt"
    }
}

pub struct CtxKeys;

impl CtxKeys {
    pub fn ntor_server_id() -> (r: &'static str)
        ensures
            r@ == "ntor_server_id"@,
    {
        "ntor_server_id"
    }

    pub fn ntor_static_public_key() -> (r: &'static str)
        ensures
            r@ == "ntor_static_public_key"@,
    {
        "ntor_static_public_key"
    }

    pub fn upstream_address() -> (r: &'static str)
        ensures
            r@ == "upstream_address"@,
    {
        "upstream_address"
    }

    pub fn upstream_sni() -> (r: &'static str)
        ensures
            r@ == "upstream_sni"@,
    {
        "upstream_sni"
    }

    pub fn fp_rp_jwt() -> (r: &'static str)
        ensures
            r@ == "fp_rp_jwt"@,
    {
        "fp_rp_jwt"
    }

    pub fn backend_auth_client_id() -> (r: &'static str)
        ensures
            r@ == "backend_auth_client_id"@,
    {
        "backend_auth_client_id"
    }
}

pub struct LogTypes;

impl LogTypes {
    pub fn access_log() -> &'static str {
        "ACCESS_LOG"
    }

    pub fn access_log_result() -> &'static str {
        "ACCESS_LOG_RESULT"
    }

    pub fn upstream_connect() -> &'static str {
        "UPSTREAM_CONNECT"
    }

    pub fn handle_client_request() -> &'static str {
        "HANDLE_CLIENT_REQUEST"
    }

    pub fn handle_upstream_response() -> &'static str {
        "HANDLE_UPSTREAM_RESPONSE"
    }

    pub fn healthcheck() -> &'static str {
        "HEALTHCHECK"
    }

    pub fn influxdb() -> &'static str {
        "INFLUXDB"
    }

    pub fn authentication_server() -> &'static str {
        "AUTHENTICATION_SERVER"
    }
}

pub struct RequestPaths;

impl RequestPaths {
    pub fn proxy() -> (r: &'static str)
        ensures
            r@ == "/proxy"@,
    {
        "/proxy"
    }

    pub fn init_tunnel() -> (r: &'static str)
        ensures
            r@ == "/init-tunnel"@,
    {
        "/init-tunnel"
    }

    pub fn healthcheck() -> (r: &'static str)
        ensures
            r@ == "/healthcheck"@,
    {
        "/healthcheck"
    }
}

/// What the session table binds an issued client token to.
pub struct IntFPSession {
    pub rp_base_url: String,
    pub fp_rp_jwt: String,
    pub client_id: String,
}

impl IntFPSession {
    pub fn duplicate(&self) -> (r: IntFPSession)
        ensures
            r.rp_base_url@ == self.rp_base_url@,
            r.fp_rp_jwt@ == self.fp_rp_jwt@,
            r.client_id@ == self.client_id@,
    {
        IntFPSession {
            rp_base_url: self.rp_base_url.clone(),
            fp_rp_jwt: self.fp_rp_jwt.clone(),
            client_id: self.client_id.clone(),
        }
    }
}

/// Why a client token was refused: it verified but is bound to no session,
/// or the verifier itself rejected it (with its reason).
pub enum TokenCheckError {
    UnknownToken,
    Verification(String),
}

impl TokenCheckError {
    /// The error text a response carries, matching the wire behaviour: a
    /// fixed text for an unknown token, the verifier's reason otherwise.
    pub fn message(self) -> (r: String)
        ensures
            self is UnknownToken ==> r@ == "token not found!"@,
            self matches TokenCheckError::Verification(t) ==> r == t,
    {
        match self {
            TokenCheckError::UnknownToken => "token not found!".to_owned(),
            TokenCheckError::Verification(t) => t,
        }
    }
}

/// The forward proxy's long-lived state: its configuration and the table
/// binding each issued `int_fp_jwt` to its session.
pub struct ForwardHandler {
    pub config: HandlerConfig,
    jwts_storage: ExpiringTable<IntFPSession>,
}

impl ForwardHandler {
    pub closed spec fn wf(&self) -> bool {
        self.jwts_storage.wf()
    }

    /// The session table: token text to `(session, expiry)`.
    pub closed spec fn sessions(&self) -> Map<Seq<char>, (IntFPSession, u64)> {
        self.jwts_storage@
    }

    /// The handler configuration, for contracts.
    pub closed spec fn cfg(&self) -> HandlerConfig {
        self.config
    }

    pub fn new(config: HandlerConfig) -> (r: ForwardHandler)
        ensures
            r.wf(),
            r.sessions() =~= Map::<Seq<char>, (IntFPSession, u64)>::empty(),
            r.cfg() == config,
    {
        ForwardHandler { config, jwts_storage: ExpiringTable::new() }
    }

    /// How many sessions are live.
    pub fn session_count(&self) -> (r: usize)
        requires
            self.wf(),
        ensures
            r == self.sessions().dom().len(),
    {
        self.jwts_storage.len()
    }

    /// Bind a freshly minted token to its session.
    pub fn store_session(&mut self, token: String, session: IntFPSession, exp: u64)
        requires
            old(self).wf(),
        ensures
            final(self).wf(),
            final(self).sessions() == old(self).sessions().insert(token@, (session, exp)),
            final(self).cfg() == old(self).cfg(),
    {
        self.jwts_storage.insert(token, session, exp);
    }

    /// Drop sessions whose token has expired: the table's time-to-live.
    pub fn evict_expired_sessions(&mut self, now: u64)
        requires
            old(self).wf(),
        ensures
            final(self).wf(),
            forall|k: Seq<char>|
                #[trigger] final(self).sessions().contains_key(k) <==> (old(
                    self,
                ).sessions().contains_key(k) && old(self).sessions()[k].1 > now),
            forall|k: Seq<char>|
                #[trigger] final(self).sessions().contains_key(k) ==> final(self).sessions()[k]
                    == old(self).sessions()[k],
            final(self).cfg() == old(self).cfg(),
    {
        self.jwts_storage.evict_expired(now);
    }

    /// Verify a client token and recover the session bound to it.  The
    /// outside library decides whether the signature and expiry hold; an
    /// unknown token is refused whatever it says, and only an unknown token
    /// is ever refused as unknown.
    pub fn verify_int_fp_jwt(&self, token: &str) -> (r: Result<&IntFPSession, TokenCheckError>)
        requires
            self.wf(),
        ensures
            r matches Ok(s) ==> self.sessions().contains_key(token@) && *s == self.sessions()[
                token@].0,
            !self.sessions().contains_key(token@) ==> r is Err,
            r matches Err(e) && e is UnknownToken ==> !self.sessions().contains_key(token@),
            self.sessions().contains_key(token@) ==> !(r matches Err(
                TokenCheckError::UnknownToken,
            )),
    {
        match jwt_verify(token, self.config.jwt_virtual_connection_key.as_slice()) {
            Ok(_claims_json) => {
                match self.jwts_storage.get(token) {
                    Some(session) => Ok(session),
                    None => Err(TokenCheckError::UnknownToken),
                }
            },
            Err(e) => Err(TokenCheckError::Verification(e)),
        }
    }

    /// Answer `/healthcheck`: a teapot with an error body when asked to fail,
    /// else success, each with its marker header.
    pub fn handle_healthcheck(&self, ctx: &mut Layer8Context) -> (r: APIHandlerResponse)
        requires
            old(ctx).wf(),
        ensures
            final(ctx).wf(),
            ({
                let wants_error = old(ctx).request.summary.params@.contains_key("error"@) && old(
                    ctx,
                ).request.summary.params@["error"@]@ == "true"@;
                if wants_error {
                    &&& r.status == 418
                    &&& r.body matches Some(b) && b@ == ser_str_obj(
                        k_fp_healthcheck_error(),
                        "this is placeholder for a custom error"@,
                    )
                    &&& final(ctx).response.header@.contains_key("x-fp-healthcheck-error"@)
                    &&& final(ctx).response.header@["x-fp-healthcheck-error"@]@
                        == "response-header-error"@
                } else {
                    &&& r.status == 200
                    &&& r.body matches Some(b) && b@ == ser_str_obj(
                        k_fp_healthcheck_success(),
                        "this is placeholder for a custom body"@,
                    )
                    &&& final(ctx).response.header@.contains_key("x-fp-healthcheck-success"@)
                    &&& final(ctx).response.header@["x-fp-healthcheck-success"@]@
                        == "response-header-success"@
                }
            }),
    {
        let mut wants_error = false;
        match ctx.param("error") {
            Some(v) => {
                if str_eq(v.as_str(), "true") {
                    wants_error = true;
                }
            },
            None => {},
        }
        if wants_error {
            let body = FpHealthcheckError {
                fp_healthcheck_error: "this is placeholder for a custom error".to_owned(),
            }.to_bytes();
            ctx.insert_response_header("x-fp-healthcheck-error", "response-header-error");
            APIHandlerResponse::new(418, Some(body))
        } else {
            let body = FpHealthcheckSuccess {
                fp_healthcheck_success: "this is placeholder for a custom body".to_owned(),
            }.to_bytes();
            ctx.insert_response_header("x-fp-healthcheck-success", "response-header-success");
            APIHandlerResponse::new(200, Some(body))
        }
    }
}

/// The `{error}` body for a given message.
pub fn error_body(msg: &str) -> (r: Vec<u8>)
    ensures
        r@ == ser_str_obj(k_error(), msg@),
{
    ErrorResponse { error: msg.to_owned() }.to_bytes()
}


// ---------------------------------------------------------------------------
// Upstream addresses: a comma-separated list of `host:port` entries kept in
// the scratch map, consumed head-first and shortened on connect failures.
// ---------------------------------------------------------------------------

pub open spec fn is_digit_char(c: char) -> bool {
    48 <= (c as u32) && (c as u32) <= 57
}

/// `host:port`: printable, comma-free, a final colon followed by digits only.
pub open spec fn is_socket_addr(s: Seq<char>) -> bool {
    &&& s.len() >= 3
    &&& forall|i: int| 0 <= i < s.len() ==> crate::json::printable(#[trigger] s[i]) && s[i] != ','
    &&& exists|i: int|
        {
            &&& 0 < i < s.len() - 1
            &&& s[i] == ':'
            &&& forall|j: int| i < j < s.len() ==> is_digit_char(#[trigger] s[j])
        }
}

pub fn is_socket_addr_check(s: &str) -> (r: bool)
    ensures
        r == is_socket_addr(s@),
{
    let n = s.unicode_len();
    if n < 3 {
        return false;
    }
    let mut i: usize = 0;
    let mut last_colon: usize = 0;
    let mut has_colon = false;
    while i < n
        invariant
            i <= n == s@.len(),
            forall|j: int| 0 <= j < i ==> crate::json::printable(#[trigger] s@[j]) && s@[j] != ',',
            has_colon ==> last_colon < i && s@[last_colon as int] == ':' && (forall|j: int|
                last_colon < j < i ==> s@[j] != ':'),
            !has_colon ==> forall|j: int| 0 <= j < i ==> s@[j] != ':',
        decreases n - i,
    {
        let c = s.get_char(i);
        let cv = c as u32;
        if !(32 <= cv && cv < 127) || c == ',' {
            return false;
        }
        if c == ':' {
            last_colon = i;
            has_colon = true;
        }
        i = i + 1;
    }
    if !has_colon {
        proof {
            if is_socket_addr(s@) {
                let w = choose|w: int|
                    0 < w < s@.len() - 1 && s@[w] == ':' && (forall|j: int|
                        w < j < s@.len() ==> is_digit_char(#[trigger] s@[j]));
                assert(false);
            }
        }
        return false;
    }
    if last_colon == 0 || last_colon >= n - 1 {
        proof {
            if is_socket_addr(s@) {
                let w = choose|w: int|
                    0 < w < s@.len() - 1 && s@[w] == ':' && (forall|j: int|
                        w < j < s@.len() ==> is_digit_char(#[trigger] s@[j]));
                if w < last_colon as int {
                    assert(is_digit_char(s@[last_colon as int]));
                    assert(false);
                }
                assert(w == last_colon as int);
                assert(false);
            }
        }
        return false;
    }
    let mut k: usize = last_colon + 1;
    while k < n
        invariant
            last_colon + 1 <= k <= n == s@.len(),
            0 < last_colon < n - 1,
            s@[last_colon as int] == ':',
            forall|j: int| last_colon < j < n ==> s@[j] != ':',
            forall|j: int| 0 <= j < n ==> crate::json::printable(#[trigger] s@[j]) && s@[j] != ',',
            forall|j: int| last_colon < j < k ==> is_digit_char(#[trigger] s@[j]),
        decreases n - k,
    {
        let c = s.get_char(k);
        let cv = c as u32;
        if !(48 <= cv && cv <= 57) {
            proof {
                if is_socket_addr(s@) {
                    let w = choose|w: int|
                        0 < w < s@.len() - 1 && s@[w] == ':' && (forall|j: int|
                            w < j < s@.len() ==> is_digit_char(#[trigger] s@[j]));
                    if w < last_colon as int {
                        assert(is_digit_char(s@[last_colon as int]));
                        assert(false);
                    }
                    assert(w == last_colon as int);
                    assert(is_digit_char(s@[k as int]));
                    assert(false);
                }
            }
            return false;
        }
        k = k + 1;
    }
    proof {
        assert(is_socket_addr(s@)) by {
            let w = last_colon as int;
            assert(0 < w < s@.len() - 1 && s@[w] == ':' && (forall|j: int|
                w < j < s@.len() ==> is_digit_char(#[trigger] s@[j])));
        }
    }
    true
}

/// The list split at its commas, head first.
pub open spec fn addr_segments(s: Seq<char>) -> Seq<Seq<char>>
    decreases s.len(),
{
    if exists|i: int|
        0 <= i < s.len() && s[i] == ',' && (forall|j: int| 0 <= j < i ==> s[j] != ',') {
        let i = choose|i: int|
            0 <= i < s.len() && s[i] == ',' && (forall|j: int| 0 <= j < i ==> s[j] != ',');
        seq![s.take(i)] + addr_segments(s.skip(i + 1))
    } else {
        seq![s]
    }
}

/// A bound upstream address list: at least one entry, each a socket address.
pub open spec fn addr_list_wf(s: Seq<char>) -> bool {
    &&& addr_segments(s).len() >= 1
    &&& forall|i: int|
        0 <= i < addr_segments(s).len() ==> is_socket_addr(#[trigger] addr_segments(s)[i])
}

proof fn lemma_segments_first_comma(s: Seq<char>, i: int)
    requires
        0 <= i < s.len(),
        s[i] == ',',
        forall|j: int| 0 <= j < i ==> s[j] != ',',
    ensures
        addr_segments(s) == seq![s.take(i)] + addr_segments(s.skip(i + 1)),
{
    let w = choose|w: int|
        0 <= w < s.len() && s[w] == ',' && (forall|j: int| 0 <= j < w ==> s[j] != ',');
    assert(w == i);
}

proof fn lemma_segments_no_comma(s: Seq<char>)
    requires
        forall|j: int| 0 <= j < s.len() ==> s[j] != ',',
    ensures
        addr_segments(s) == seq![s],
{
    if exists|i: int|
        0 <= i < s.len() && s[i] == ',' && (forall|j: int| 0 <= j < i ==> s[j] != ',') {
        let w = choose|w: int|
            0 <= w < s.len() && s[w] == ',' && (forall|j: int| 0 <= j < w ==> s[j] != ',');
        assert(false);
    }
}

pub open spec fn join_commas(l: Seq<Seq<char>>) -> Seq<char>
    decreases l.len(),
{
    if l.len() == 0 {
        Seq::empty()
    } else if l.len() == 1 {
        l[0]
    } else {
        l[0] + seq![','] + join_commas(l.drop_first())
    }
}

proof fn lemma_segments_of_join(l: Seq<Seq<char>>)
    requires
        l.len() >= 1,
        forall|a: int, j: int| 0 <= a < l.len() && 0 <= j < l[a].len() ==> l[a][j] != ',',
    ensures
        addr_segments(join_commas(l)) == l,
    decreases l.len(),
{
    if l.len() == 1 {
        assert(join_commas(l) == l[0]);
        lemma_segments_no_comma(l[0]);
        assert(addr_segments(join_commas(l)) =~= l);
    } else {
        let s = join_commas(l);
        let h = l[0];
        let rest = join_commas(l.drop_first());
        assert(s =~= h + seq![','] + rest);
        assert(s[h.len() as int] == ',');
        assert(forall|j: int| 0 <= j < h.len() ==> s[j] == h[j] && s[j] != ',');
        lemma_segments_first_comma(s, h.len() as int);
        assert(s.take(h.len() as int) =~= h);
        assert(s.skip(h.len() as int + 1) =~= rest);
        assert(forall|a: int, j: int|
            0 <= a < l.drop_first().len() && 0 <= j < l.drop_first()[a].len()
                ==> l.drop_first()[a][j] != ',');
        lemma_segments_of_join(l.drop_first());
        assert(addr_segments(s) =~= seq![h] + l.drop_first());
        assert(seq![h] + l.drop_first() =~= l);
    }
}

proof fn lemma_join_snoc(l: Seq<Seq<char>>, x: Seq<char>)
    requires
        l.len() >= 1,
    ensures
        join_commas(l.push(x)) == join_commas(l) + seq![','] + x,
    decreases l.len(),
{
    if l.len() == 1 {
        assert(l.push(x).drop_first() =~= seq![x]);
        assert(l.push(x).len() == 2);
        assert(l.push(x)[0] == l[0]);
        assert(join_commas(seq![x]) == x);
        assert(join_commas(l.push(x)) == l.push(x)[0] + seq![','] + join_commas(l.push(x).drop_first()));
        assert(join_commas(l.push(x)) =~= l[0] + seq![','] + x);
        assert(join_commas(l) == l[0]);
    } else {
        lemma_join_snoc(l.drop_first(), x);
        assert(l.push(x).drop_first() =~= l.drop_first().push(x));
        assert(l.push(x)[0] == l[0]);
        assert(l.push(x).len() >= 2);
        assert(join_commas(l.push(x)) == l[0] + seq![','] + join_commas(l.drop_first().push(x)));
        assert(join_commas(l.push(x)) =~= join_commas(l) + seq![','] + x);
    }
}

/// The texts of a list of strings.
pub open spec fn str_views(l: Seq<String>) -> Seq<Seq<char>> {
    l.map_values(|a: String| a@)
}

/// The well-shaped `host:port` entries of a resolved address list, in order.
pub open spec fn well_shaped_addrs(l: Seq<String>) -> Seq<Seq<char>>
    decreases l.len(),
{
    if l.len() == 0 {
        Seq::empty()
    } else {
        let rest = well_shaped_addrs(l.drop_last());
        if is_socket_addr(l.last()@) {
            rest.push(l.last()@)
        } else {
            rest
        }
    }
}

fn join_addrs(addrs: &Vec<String>) -> (r: String)
    requires
        addrs@.len() >= 1,
    ensures
        r@ == join_commas(str_views(addrs@)),
{
    let mut out: String = addrs[0].clone();
    let mut i: usize = 1;
    while i < addrs.len()
        invariant
            1 <= i <= addrs@.len(),
            out@ == join_commas(str_views(addrs@).take(i as int)),
        decreases addrs@.len() - i,
    {
        out.append(",");
        proof {
            reveal_strlit(",");
            broadcast use vstd::string::group_string_axioms;

            assert(","@ =~= seq![',']);
        }
        out.append(addrs[i].as_str());
        proof {
            let l = str_views(addrs@);
            lemma_join_snoc(l.take(i as int), l[i as int]);
            assert(l.take(i as int).push(l[i as int]) =~= l.take(i + 1 as int));
        }
        i = i + 1;
    }
    proof {
        let l = str_views(addrs@);
        assert(l.take(l.len() as int) =~= l);
    }
    out
}

// ---------------------------------------------------------------------------
// The request-filter phase.
// ---------------------------------------------------------------------------

/// What the request filter decides: answer at once, or resolve an upstream
/// URL and carry on.
pub enum FilterDecision {
    Respond { status: u16, body: Option<Vec<u8>>, close: bool },
    NeedResolve { url: String },
}

/// The pieces of a `Respond` decision, if that is what it is.
pub open spec fn respond_parts(r: FilterDecision) -> Option<(u16, Option<Vec<u8>>, bool)> {
    match r {
        FilterDecision::Respond { status, body, close } => Some((status, body, close)),
        _ => None,
    }
}

/// The URL of a `NeedResolve` decision, if that is what it is.
pub open spec fn resolve_url_of(r: FilterDecision) -> Option<String> {
    match r {
        FilterDecision::NeedResolve { url } => Some(url),
        _ => None,
    }
}

impl ForwardHandler {
    /// Route an incoming request.  `OPTIONS` is answered `204` without
    /// routing; `/healthcheck` is answered inline; `/init-tunnel` demands its
    /// `backend_url` parameter; `/proxy` demands a known client token, whose
    /// session is copied into the scratch map; anything else is `404`.
    pub fn request_filter_route(&self, ctx: &mut Layer8Context) -> (r: FilterDecision)
        requires
            old(ctx).wf(),
            self.wf(),
        ensures
            final(ctx).wf(),
            ({
                let m = old(ctx).request.summary.method;
                let p = old(ctx).request.summary.path@;
                &&& m == Method::Options ==> respond_parts(r) == Some(
                    (204u16, None::<Vec<u8>>, true),
                )
                &&& m == Method::Options ==> {
                    &&& final(ctx).response.header@.contains_key("access-control-allow-origin"@)
                    &&& final(ctx).response.header@["access-control-allow-origin"@]@ == "*"@
                    &&& final(ctx).response.header@.contains_key("access-control-allow-methods"@)
                    &&& final(ctx).response.header@["access-control-allow-methods"@]@ == "POST"@
                    &&& final(ctx).response.header@.contains_key("access-control-allow-headers"@)
                    &&& final(ctx).response.header@["access-control-allow-headers"@]@ == "*"@
                }
                &&& m == Method::Get && p == "/healthcheck"@ ==> (respond_parts(r) matches Some(q)
                    && (q.0 == 200 || q.0 == 418))
                &&& m == Method::Post && p == "/init-tunnel"@ ==> {
                    if old(ctx).request.summary.params@.contains_key("backend_url"@) {
                        &&& resolve_url_of(r) matches Some(u)
                        &&& u@ == old(ctx).request.summary.params@["backend_url"@]@
                    } else {
                        &&& respond_parts(r) matches Some(q)
                        &&& q.0 == 400
                        &&& q.2 == true
                        &&& q.1 matches Some(b)
                        &&& b@ == ser_str_obj(k_error(), "backend_url is a required param"@)
                    }
                }
                &&& m == Method::Post && p == "/proxy"@ ==> {
                    if !old(ctx).request.header@.contains_key("int_fp_jwt"@) {
                        &&& respond_parts(r) matches Some(q)
                        &&& q.0 == 400
                        &&& q.2 == true
                        &&& q.1 matches Some(b)
                        &&& b@ == ser_str_obj(k_error(), "Missing int_fp_jwt header"@)
                    } else if old(ctx).request.header@["int_fp_jwt"@]@.len() == 0 {
                        &&& respond_parts(r) matches Some(q)
                        &&& q.0 == 400
                        &&& q.2 == true
                        &&& q.1 matches Some(b)
                        &&& b@ == ser_str_obj(k_error(), "Empty int_fp_jwt header"@)
                    } else {
                        let tok = old(ctx).request.header@["int_fp_jwt"@]@;
                        &&& (resolve_url_of(r) matches Some(u) ==> {
                            &&& self.sessions().contains_key(tok)
                            &&& u@ == self.sessions()[tok].0.rp_base_url@
                            &&& final(ctx).scratch().contains_key("fp_rp_jwt"@)
                            &&& final(ctx).scratch()["fp_rp_jwt"@]@ == self.sessions()[
                                tok].0.fp_rp_jwt@
                            &&& final(ctx).scratch().contains_key("backend_auth_client_id"@)
                        })
                        &&& (!self.sessions().contains_key(tok) ==> (respond_parts(r) matches Some(
                            q,
                        ) && q.0 == 400))
                    }
                }
                &&& m == Method::Put || m == Method::Delete || m == Method::Head || m
                    == Method::Other ==> respond_parts(r) == Some((404u16, None::<Vec<u8>>, true))
                &&& m == Method::Get && p != "/healthcheck"@ ==> respond_parts(r) == Some(
                    (404u16, None::<Vec<u8>>, true),
                )
                &&& m == Method::Post && p != "/init-tunnel"@ && p != "/proxy"@ ==> respond_parts(
                    r,
                ) == Some((404u16, None::<Vec<u8>>, true))
            }),
    {
        proof {
            broadcast use vstd::string::group_string_axioms;

            reveal_strlit("/healthcheck");
            reveal_strlit("/init-tunnel");
            reveal_strlit("/proxy");
            assert("/healthcheck"@.len() == 12);
            assert("/init-tunnel"@.len() == 12);
            assert("/proxy"@.len() == 6);
            assert("/healthcheck"@[1] == 'h');
            assert("/init-tunnel"@[1] == 'i');
            assert("/healthcheck"@ != "/init-tunnel"@);
            assert("/healthcheck"@ != "/proxy"@);
            assert("/init-tunnel"@ != "/proxy"@);
        }
        let method = ctx.method();
        if method == Method::Options {
            proof {
                broadcast use vstd::string::group_string_axioms;

                reveal_strlit("access-control-allow-origin");
                reveal_strlit("access-control-allow-methods");
                reveal_strlit("access-control-allow-headers");
                assert("access-control-allow-origin"@.len() == 27);
                assert("access-control-allow-methods"@.len() == 28);
                assert("access-control-allow-headers"@.len() == 28);
                assert("access-control-allow-methods"@[24] == 'h');
                assert("access-control-allow-headers"@[24] == 'd');
            }
            ctx.insert_response_header("access-control-allow-origin", "*");
            ctx.insert_response_header("access-control-allow-methods", "POST");
            ctx.insert_response_header("access-control-allow-headers", "*");
            return FilterDecision::Respond { status: 204, body: None, close: true };
        }
        let path = ctx.path().clone();
        if method == Method::Get && str_eq(path.as_str(), "/healthcheck") {
            let hr = self.handle_healthcheck(ctx);
            return FilterDecision::Respond { status: hr.status, body: hr.body, close: false };
        }
        if method == Method::Post && str_eq(path.as_str(), "/init-tunnel") {
            match ctx.param("backend_url") {
                Some(url) => {
                    let u = url.clone();
                    return FilterDecision::NeedResolve { url: u };
                },
                None => {
                    return FilterDecision::Respond {
                        status: 400,
                        body: Some(error_body("backend_url is a required param")),
                        close: true,
                    };
                },
            }
        }
        if method == Method::Post && str_eq(path.as_str(), "/proxy") {
            let token: String = match ctx.get_request_header("int_fp_jwt") {
                None => {
                    return FilterDecision::Respond {
                        status: 400,
                        body: Some(error_body("Missing int_fp_jwt header")),
                        close: true,
                    };
                },
                Some(t) => t.clone(),
            };
            if token.as_str().unicode_len() == 0 {
                return FilterDecision::Respond {
                    status: 400,
                    body: Some(error_body("Empty int_fp_jwt header")),
                    close: true,
                };
            }
            match self.verify_int_fp_jwt(token.as_str()) {
                Ok(session) => {
                    let s = session.duplicate();
                    ctx.set("fp_rp_jwt".to_owned(), s.fp_rp_jwt);
                    ctx.set("backend_auth_client_id".to_owned(), s.client_id);
                    proof {
                        reveal_strlit("fp_rp_jwt");
                        reveal_strlit("backend_auth_client_id");
                        broadcast use vstd::string::group_string_axioms;

                        assert("fp_rp_jwt"@.len() == 9);
                        assert("backend_auth_client_id"@.len() == 22);
                    }
                    return FilterDecision::NeedResolve { url: s.rp_base_url };
                },
                Err(e) => {
                    let text = e.message();
                    return FilterDecision::Respond {
                        status: 400,
                        body: Some(error_body(text.as_str())),
                        close: true,
                    };
                },
            }
        }
        FilterDecision::Respond { status: 404, body: None, close: true }
    }

    /// Decide on a resolved upstream: binding succeeds exactly when at least
    /// one resolved address is a well-shaped `host:port` entry, and then the
    /// bound list is the comma-join of exactly the well-shaped addresses, in
    /// their order, with the given name bound as the SNI.
    pub fn bind_resolved_upstream(
        &self,
        ctx: &mut Layer8Context,
        addrs: &Vec<String>,
        sni: String,
    ) -> (r: Result<(), APIHandlerResponse>)
        requires
            old(ctx).wf(),
        ensures
            final(ctx).wf(),
            r is Ok <==> well_shaped_addrs(addrs@).len() > 0,
            r is Ok ==> {
                &&& final(ctx).scratch().contains_key("upstream_address"@)
                &&& final(ctx).scratch()["upstream_address"@]@ == join_commas(
                    well_shaped_addrs(addrs@),
                )
                &&& addr_list_wf(final(ctx).scratch()["upstream_address"@]@)
                &&& final(ctx).scratch().contains_key("upstream_sni"@)
                &&& final(ctx).scratch()["upstream_sni"@]@ == sni@
                &&& forall|k: Seq<char>|
                    k != "upstream_address"@ && k != "upstream_sni"@ ==> ((
                    #[trigger] final(ctx).scratch().contains_key(k)) <==> old(
                        ctx,
                    ).scratch().contains_key(k)) && (final(ctx).scratch().contains_key(k)
                        ==> final(ctx).scratch()[k] == old(ctx).scratch()[k])
            },
            r matches Err(e) ==> {
                &&& e.status == 400
                &&& e.body matches Some(b)
                &&& b@ == ser_str_obj(k_error(), "Invalid backend_url"@)
                &&& final(ctx).scratch() == old(ctx).scratch()
            },
    {
        let mut good: Vec<String> = Vec::new();
        let mut i: usize = 0;
        proof {
            assert(str_views(good@) =~= Seq::<Seq<char>>::empty());
            assert(well_shaped_addrs(addrs@.take(0)) =~= Seq::<Seq<char>>::empty()) by {
                assert(str_views(addrs@.take(0)) =~= Seq::<Seq<char>>::empty());
            }
        }
        while i < addrs.len()
            invariant
                i <= addrs@.len(),
                str_views(good@) =~= well_shaped_addrs(addrs@.take(i as int)),
                forall|a: int| 0 <= a < good@.len() ==> is_socket_addr(#[trigger] good@[a]@),
            decreases addrs@.len() - i,
        {
            let keep = is_socket_addr_check(addrs[i].as_str());
            proof {
                let cur = addrs@.take(i + 1 as int);
                assert(cur.drop_last() =~= addrs@.take(i as int));
                assert(cur.last() == addrs@[i as int]);
                assert(well_shaped_addrs(cur) == (if is_socket_addr(addrs@[i as int]@) {
                    well_shaped_addrs(addrs@.take(i as int)).push(addrs@[i as int]@)
                } else {
                    well_shaped_addrs(addrs@.take(i as int))
                }));
            }
            if keep {
                let ghost before = good@;
                good.push(addrs[i].clone());
                proof {
                    assert(str_views(good@) =~= str_views(before).push(addrs@[i as int]@));
                }
            }
            i = i + 1;
        }
        proof {
            assert(addrs@.take(addrs@.len() as int) =~= addrs@);
        }
        if good.len() == 0 {
            proof {
                assert(well_shaped_addrs(addrs@).len() == 0);
            }
            return Err(APIHandlerResponse::new(400, Some(error_body("Invalid backend_url"))));
        }
        let joined = join_addrs(&good);
        proof {
            let l = str_views(good@);
            assert(forall|a: int, j: int|
                0 <= a < l.len() && 0 <= j < l[a].len() ==> l[a][j] != ',') by {
                assert(forall|a: int| 0 <= a < l.len() ==> is_socket_addr(#[trigger] l[a]));
            }
            lemma_segments_of_join(l);
            assert(addr_list_wf(joined@)) by {
                assert(forall|a: int| 0 <= a < l.len() ==> is_socket_addr(#[trigger] l[a]));
            }
            reveal_strlit("upstream_address");
            reveal_strlit("upstream_sni");
            broadcast use vstd::string::group_string_axioms;

            assert("upstream_address"@.len() == 16);
            assert("upstream_sni"@.len() == 12);
            assert("upstream_address"@ != "upstream_sni"@);
        }
        ctx.set("upstream_address".to_owned(), joined);
        ctx.set("upstream_sni".to_owned(), sni);
        Ok(())
    }

    /// Resolve and bind the upstream: every bound address list is non-empty
    /// and made of `host:port` entries.
    pub fn bind_upstream(&self, ctx: &mut Layer8Context, url: &str) -> (r: Result<
        (),
        APIHandlerResponse,
    >)
        requires
            old(ctx).wf(),
        ensures
            final(ctx).wf(),
            r is Ok ==> final(ctx).scratch().contains_key("upstream_address"@) && addr_list_wf(
                final(ctx).scratch()["upstream_address"@]@,
            ) && final(ctx).scratch().contains_key("upstream_sni"@),
            r matches Err(e) ==> {
                &&& e.status == 400
                &&& e.body matches Some(b)
                &&& b@ == ser_str_obj(k_error(), "Invalid backend_url"@)
                &&& final(ctx).scratch() == old(ctx).scratch()
            },
    {
        let resolved = crate::trusted::resolve_url(url);
        let (addrs, sni) = match resolved {
            Some(p) => p,
            None => {
                return Err(
                    APIHandlerResponse::new(400, Some(error_body("Invalid backend_url"))),
                );
            },
        };
        self.bind_resolved_upstream(ctx, &addrs, sni)
    }

    /// The address the next connection attempt goes to: the head of the
    /// bound list, with the SNI to present.
    pub fn first_upstream_address(&self, ctx: &Layer8Context) -> (r: Option<(String, String)>)
        requires
            ctx.wf(),
        ensures
            r matches Some(p) ==> ctx.scratch().contains_key("upstream_address"@) && p.0@
                == addr_segments(ctx.scratch()["upstream_address"@]@)[0] && p.1@ == (if ctx.scratch().contains_key("upstream_sni"@) {
                ctx.scratch()["upstream_sni"@]@
            } else {
                Seq::<char>::empty()
            }),
            ctx.scratch().contains_key("upstream_address"@) && addr_list_wf(
                ctx.scratch()["upstream_address"@]@,
            ) ==> r is Some,
    {
        let addrs: String = match ctx.get("upstream_address") {
            Some(a) => a.clone(),
            None => {
                return None;
            },
        };
        let sni: String = match ctx.get("upstream_sni") {
            Some(s) => s.clone(),
            None => String::new(),
        };
        proof {
            assert(sni@ == (if ctx.scratch().contains_key("upstream_sni"@) {
                ctx.scratch()["upstream_sni"@]@
            } else {
                Seq::<char>::empty()
            }));
        }
        let n = addrs.as_str().unicode_len();
        if n == 0 {
            proof {
                lemma_segments_no_comma(addrs@);
                if addr_list_wf(ctx.scratch()["upstream_address"@]@) {
                    assert(addr_segments(addrs@)[0] == addrs@);
                    assert(is_socket_addr(addrs@));
                    assert(false);
                }
            }
            return None;
        }
        let mut i: usize = 0;
        while i < n
            invariant
                i <= n == addrs@.len(),
                ctx.wf(),
                ctx.scratch().contains_key("upstream_address"@),
                addrs@ == ctx.scratch()["upstream_address"@]@,
                sni@ == (if ctx.scratch().contains_key("upstream_sni"@) {
                    ctx.scratch()["upstream_sni"@]@
                } else {
                    Seq::<char>::empty()
                }),
                forall|j: int| 0 <= j < i ==> addrs@[j] != ',',
            decreases n - i,
        {
            if addrs.as_str().get_char(i) == ',' {
                let head = addrs.as_str().substring_char(0, i).to_owned();
                proof {
                    lemma_segments_first_comma(addrs@, i as int);
                }
                return Some((head, sni));
            }
            i = i + 1;
        }
        proof {
            lemma_segments_no_comma(addrs@);
        }
        Some((addrs, sni))
    }

    /// After a retryable connect failure, drop the failed head address; the
    /// retry may then run on the shortened list.  Returns whether to retry.
    pub fn drop_failed_address(&self, ctx: &mut Layer8Context, retryable: bool) -> (r: bool)
        requires
            old(ctx).wf(),
        ensures
            final(ctx).wf(),
            !retryable ==> r == false && final(ctx).scratch() == old(ctx).scratch(),
            r == false ==> final(ctx).scratch() == old(ctx).scratch(),
            retryable && old(ctx).scratch().contains_key("upstream_address"@) && (exists|i: int|
                0 <= i < old(ctx).scratch()["upstream_address"@]@.len() && old(ctx).scratch()[
                "upstream_address"@]@[i] == ',') ==> r == true,
            r ==> old(ctx).scratch().contains_key("upstream_address"@) && final(ctx).scratch().contains_key("upstream_address"@) && addr_segments(
                final(ctx).scratch()["upstream_address"@]@,
            ) == addr_segments(old(ctx).scratch()["upstream_address"@]@).drop_first(),
    {
        if !retryable {
            return false;
        }
        let addrs: String = match ctx.get("upstream_address") {
            Some(a) => a.clone(),
            None => {
                return false;
            },
        };
        let n = addrs.as_str().unicode_len();
        let mut i: usize = 0;
        while i < n
            invariant
                i <= n == addrs@.len(),
                retryable,
                ctx.wf(),
                *ctx == *old(ctx),
                old(ctx).scratch().contains_key("upstream_address"@),
                addrs@ == old(ctx).scratch()["upstream_address"@]@,
                forall|j: int| 0 <= j < i ==> addrs@[j] != ',',
            decreases n - i,
        {
            if addrs.as_str().get_char(i) == ',' {
                let rest = addrs.as_str().substring_char(i + 1, n).to_owned();
                proof {
                    lemma_segments_first_comma(addrs@, i as int);
                    assert(addr_segments(addrs@).drop_first() =~= addr_segments(
                        addrs@.skip(i as int + 1),
                    ));
                }
                ctx.set("upstream_address".to_owned(), rest);
                proof {
                    reveal_strlit("upstream_address");
                }
                return true;
            }
            i = i + 1;
        }
        false
    }
}


// ---------------------------------------------------------------------------
// The `/init-tunnel` exchange: fetch the backend's credentials, forward the
// request, and on the way back mint the client's token and bind the session.
// ---------------------------------------------------------------------------

/// The backend key the request phase stashed in the scratch map, decoded.
pub open spec fn scratch_static_key(sc: Map<Seq<char>, String>) -> Seq<u8> {
    if sc.contains_key("ntor_static_public_key"@) {
        match crate::util::p_hex(encode_utf8(sc["ntor_static_public_key"@]@)) {
            Some(k) => k,
            None => Seq::empty(),
        }
    } else {
        Seq::empty()
    }
}

/// A URL with its scheme stripped, as the authentication server expects.
pub open spec fn strip_scheme(u: Seq<char>) -> Seq<char> {
    if u.len() >= 8 && u.take(8) == "https://"@ {
        u.skip(8)
    } else if u.len() >= 7 && u.take(7) == "http://"@ {
        u.skip(7)
    } else {
        u
    }
}

fn strip_scheme_exec(u: &str) -> (r: String)
    ensures
        r@ == strip_scheme(u@),
{
    let n = u.unicode_len();
    if n >= 8 {
        let head = u.substring_char(0, 8);
        if str_eq(head, "https://") {
            proof {
                assert(u@.take(8) == "https://"@);
            }
            return u.substring_char(8, n).to_owned();
        }
    }
    if n >= 7 {
        let head = u.substring_char(0, 7);
        if str_eq(head, "http://") {
            proof {
                broadcast use vstd::string::group_string_axioms;

                reveal_strlit("https://");
                reveal_strlit("http://");
                assert(u@.take(7) == "http://"@);
                if u@.len() >= 8 && u@.take(8) == "https://"@ {
                    assert(u@[0] == 'h' && u@.take(8)[4] == 's');
                    assert(u@[4] == 's');
                    assert(u@.take(7)[4] == u@[4]);
                    assert("http://"@[4] == ':');
                    assert(false);
                }
            }
            return u.substring_char(7, n).to_owned();
        }
    }
    proof {
        if u@.len() >= 8 && u@.take(8) == "https://"@ {
            assert(false);
        }
        if u@.len() >= 7 && u@.take(7) == "http://"@ {
            assert(false);
        }
    }
    u.to_owned()
}

/// The outside call the request phase needs: one authenticated lookup.
pub struct CertFetchPlan {
    pub url: String,
    pub authorization: String,
}

/// What came back from the authentication server.
pub enum CertFetchOutcome {
    /// The connection itself failed, with the transport's message.
    NoConnect(String),
    /// An answer arrived.
    Answered { status: u16, body: Vec<u8> },
}

impl ForwardHandler {
    /// Check an `/init-tunnel` request body and plan the certificate lookup.
    /// On success the canonical body to forward rides along.
    pub fn init_tunnel_request_check(&self, ctx: &Layer8Context) -> (r: Result<
        (Vec<u8>, CertFetchPlan),
        APIHandlerResponse,
    >)
        requires
            ctx.wf(),
            self.wf(),
        ensures
            crate::wire::p_init_tunnel_req(ctx.req_body()) is None ==> {
                &&& r matches Err(e)
                &&& e.status == 400
                &&& e.body matches Some(b)
                &&& b@ == ser_str_obj(k_error(), "invalid request body"@)
            },
            crate::wire::p_init_tunnel_req(ctx.req_body()) matches Some(pk) ==> {
                &&& r matches Ok(ok)
                &&& ok.0@ == crate::wire::ser_init_tunnel_req(pk)
                &&& ok.1.url@ == self.cfg().auth_get_certificate_url@ + strip_scheme(
                    if ctx.request.summary.params@.contains_key("backend_url"@) {
                        ctx.request.summary.params@["backend_url"@]@
                    } else {
                        Seq::<char>::empty()
                    },
                )
                &&& ok.1.authorization@ == "Bearer "@ + self.cfg().auth_access_token@
            },
    {
        let body = ctx.get_request_body();
        let parsed = match crate::wire::InitTunnelRequest::from_bytes(body.as_slice()) {
            Some(m) => m,
            None => {
                return Err(
                    APIHandlerResponse::new(400, Some(error_body("invalid request body"))),
                );
            },
        };
        let forward = parsed.to_bytes();
        let backend_url: String = match ctx.param("backend_url") {
            Some(u) => u.clone(),
            None => String::new(),
        };
        let stripped = strip_scheme_exec(backend_url.as_str());
        let mut url = self.config.auth_get_certificate_url.clone();
        url.append(stripped.as_str());
        let mut authorization: String = "Bearer ".to_owned();
        authorization.append(self.config.auth_access_token.as_str());
        proof {
            if !ctx.request.summary.params@.contains_key("backend_url"@) {
                assert(backend_url@ =~= Seq::<char>::empty());
            }
        }
        Ok((forward, CertFetchPlan { url, authorization }))
    }

    /// Take the authentication server's answer, extract the backend's
    /// key-exchange credentials into the scratch map, and settle the phase.
    pub fn init_tunnel_request_finish(
        &self,
        ctx: &mut Layer8Context,
        forward_body: Vec<u8>,
        outcome: CertFetchOutcome,
    ) -> (r: APIHandlerResponse)
        requires
            old(ctx).wf(),
            self.wf(),
        ensures
            final(ctx).wf(),
            r.status != 200 ==> final(ctx).response.header@.contains_key("connection"@) && final(ctx).response.header@["connection"@]@ == "close"@,
            outcome matches CertFetchOutcome::NoConnect(e) ==> {
                &&& r.status == 500
                &&& r.body matches Some(b)
                &&& b@ == ser_str_obj(k_error(), "Failed to connect to layer8: "@ + e@)
            },
            outcome matches CertFetchOutcome::Answered { status, body } ==> {
                if !(200 <= status < 300) {
                    &&& r.status == 500
                    &&& r.body matches Some(b)
                    &&& b@ == ser_str_obj(
                        k_error(),
                        "Failed to get public key from layer8, status code: "@ + crate::util::dec_str(
                            status as u64,
                        ),
                    )
                } else {
                    match crate::wire::p_auth_resp(body@) {
                        None => r.status == 500 && r.body is None,
                        Some(pem) => match crate::trusted::spki_of_pem(pem) {
                            None => r.status == 500 && r.body is None,
                            Some(key) => {
                                &&& r.status == 200
                                &&& r.body matches Some(b)
                                &&& b@ == forward_body@
                                &&& final(ctx).scratch().contains_key("ntor_server_id"@)
                                &&& final(ctx).scratch()["ntor_server_id"@]@ == (if old(ctx).request.summary.params@.contains_key("backend_url"@) {
                                    old(ctx).request.summary.params@["backend_url"@]@
                                } else {
                                    Seq::<char>::empty()
                                })
                                &&& final(ctx).scratch().contains_key("ntor_static_public_key"@)
                                &&& final(ctx).scratch()["ntor_static_public_key"@]@
                                    == crate::util::hex_str(key)
                            },
                        },
                    }
                }
            },
    {
        let (status, body) = match outcome {
            CertFetchOutcome::NoConnect(e) => {
                let mut msg: String = "Failed to connect to layer8: ".to_owned();
                msg.append(e.as_str());
                ctx.insert_response_header("connection", "close");
                return APIHandlerResponse::new(500, Some(error_body(msg.as_str())));
            },
            CertFetchOutcome::Answered { status, body } => (status, body),
        };
        if !(200 <= status && status < 300) {
            let mut msg: String = "Failed to get public key from layer8, status code: ".to_owned();
            let st = crate::util::u64_to_string(status as u64);
            msg.append(st.as_str());
            ctx.insert_response_header("connection", "close");
            return APIHandlerResponse::new(500, Some(error_body(msg.as_str())));
        }
        let cert = match crate::wire::AuthServerResponse::from_bytes(body.as_slice()) {
            Some(c) => c,
            None => {
                ctx.insert_response_header("connection", "close");
                return APIHandlerResponse::new(500, None);
            },
        };
        let key = match crate::trusted::extract_x509_pem(cert.x509_certificate.as_str()) {
            Some(k) => k,
            None => {
                ctx.insert_response_header("connection", "close");
                return APIHandlerResponse::new(500, None);
            },
        };
        let backend_url: String = match ctx.param("backend_url") {
            Some(u) => u.clone(),
            None => String::new(),
        };
        let key_hex = crate::util::hex_encode(key.as_slice());
        ctx.set("ntor_server_id".to_owned(), backend_url);
        ctx.set("ntor_static_public_key".to_owned(), key_hex);
        proof {
            broadcast use vstd::string::group_string_axioms;

            reveal_strlit("ntor_server_id");
            reveal_strlit("ntor_static_public_key");
            assert("ntor_server_id"@.len() == 14);
            assert("ntor_static_public_key"@.len() == 22);
            assert("ntor_server_id"@ != "ntor_static_public_key"@);
        }
        APIHandlerResponse::new(200, Some(forward_body))
    }

    /// Handle the reverse proxy's `/init-tunnel` answer: mint the client's
    /// token, bind the session under it, and synthesize the client's body.
    pub fn handle_init_tunnel_response(&mut self, ctx: &mut Layer8Context) -> (r:
        APIHandlerResponse)
        requires
            old(ctx).wf(),
            old(self).wf(),
        ensures
            final(ctx).wf(),
            final(self).wf(),
            final(self).cfg() == old(self).cfg(),
            crate::wire::p_init_tunnel_resp(old(ctx).resp_body()) is None ==> (r.status == 500
                && r.body is None && final(self).sessions() == old(self).sessions()),
            crate::wire::p_init_tunnel_resp(old(ctx).resp_body()) is Some ==> r.status == 200,
            r.status != 200 ==> final(self).sessions() == old(self).sessions(),
            r.status == 200 ==> (crate::wire::p_init_tunnel_resp(old(ctx).resp_body()) matches Some(
                m,
            ) && exists|t: Seq<char>, exp: u64, sess: IntFPSession|
                #![trigger old(self).sessions().insert(t, (sess, exp))]
                {
                    &&& final(self).sessions() == old(self).sessions().insert(t, (sess, exp))
                    &&& final(self).sessions().contains_key(t)
                    &&& sess.fp_rp_jwt@ == m.3
                    &&& (old(ctx).request.summary.params@.contains_key("backend_url"@)
                        ==> sess.rp_base_url@ == old(ctx).request.summary.params@["backend_url"@]@)
                    &&& r.body matches Some(b)
                    &&& b@ == crate::wire::ser_init_resp_int(
                        m.0,
                        m.1,
                        m.2,
                        t,
                        scratch_static_key(old(ctx).scratch()),
                        if old(ctx).scratch().contains_key("ntor_server_id"@) {
                            old(ctx).scratch()["ntor_server_id"@]@
                        } else {
                            Seq::<char>::empty()
                        },
                    )
                }),
    {
        let resp_body = ctx.get_response_body();
        let m = match crate::wire::InitTunnelResponseFromRP::from_bytes(resp_body.as_slice()) {
            Some(m) => m,
            None => {
                return APIHandlerResponse::new(500, None);
            },
        };
        let mut claims = crate::jwt::JWTClaims::new(Some(self.config.jwt_exp_in_hours));
        let jti = crate::trusted::new_uuid();
        claims.jti = Some(jti);
        let ghost gclaims = claims;
        proof {
            assert(printable_claims(gclaims));
            lemma_claims_doc_signable(gclaims);
        }
        let claims_json = claims.to_json_bytes();
        let claims_str = match crate::trusted::string_from_utf8(claims_json) {
            Some(s) => s,
            None => {
                proof {
                    assert(false);
                }
                return APIHandlerResponse::new(500, None);
            },
        };
        proof {
            decode_utf8_encode_utf8(ser_claims(gclaims));
            assert(exists|c: crate::jwt::JWTClaims|
                vstd::utf8::encode_utf8(claims_str@) == #[trigger] ser_claims(c)
                    && crate::jwt::wf_claims(c)) by {
                assert(vstd::utf8::encode_utf8(claims_str@) == ser_claims(gclaims)
                    && crate::jwt::wf_claims(gclaims));
            }
        }
        let token = match crate::trusted::jwt_sign(
            claims_str.as_str(),
            self.config.jwt_virtual_connection_key.as_slice(),
        ) {
            Ok(t) => t,
            Err(_) => {
                proof {
                    assert(false);
                }
                return APIHandlerResponse::new(500, None);
            },
        };
        let backend_url: String = match ctx.param("backend_url") {
            Some(u) => u.clone(),
            None => String::new(),
        };
        let session = IntFPSession {
            rp_base_url: backend_url,
            fp_rp_jwt: m.fp_rp_jwt,
            client_id: String::new(),
        };
        let ghost gsess = session;
        let ghost gexp = claims.exp;
        self.store_session(token.clone(), session, claims.exp);
        let ghost gtok = token@;
        let server_id: String = match ctx.get("ntor_server_id") {
            Some(v) => v.clone(),
            None => String::new(),
        };
        let static_key: Vec<u8> = match ctx.get("ntor_static_public_key") {
            Some(v) => {
                match crate::util::hex_decode(v.as_str()) {
                    Some(k) => k,
                    None => Vec::new(),
                }
            },
            None => Vec::new(),
        };
        let out = crate::wire::InitTunnelResponseToINT {
            ephemeral_public_key: m.public_key,
            t_b_hash: m.t_b_hash,
            int_rp_jwt: m.int_rp_jwt,
            int_fp_jwt: token,
            ntor_static_public_key: static_key,
            ntor_server_id: server_id,
        };
        let body = out.to_bytes();
        proof {
            assert(final(self).sessions() == old(self).sessions().insert(gtok, (gsess, gexp)));
        }
        APIHandlerResponse::new(200, Some(body))
    }
}


impl ForwardHandler {
    /// Rewrite the headers of the request about to leave for the reverse
    /// proxy: on `/proxy` the client's token is swapped for the bound
    /// inter-proxy token, and unless the empty-body sentinel is present the
    /// body is re-framed as chunked.
    pub fn upstream_request_rewrite(&self, path: &str, headers: &mut StrMap) -> (r: Result<
        (),
        u16,
    >)
        requires
            old(headers).wf(),
            self.wf(),
        ensures
            final(headers).wf(),
            r matches Err(status) ==> status == 400 && final(headers)@ == old(headers)@,
            path@ != "/proxy"@ ==> r is Ok,
            r is Ok ==> forall|k: Seq<char>|
                k != "int_fp_jwt"@ && k != "fp_rp_jwt"@ && k != "content-length"@ && k
                    != "transfer-encoding"@ ==> ((#[trigger] final(headers)@.contains_key(k))
                    <==> old(headers)@.contains_key(k)) && (final(headers)@.contains_key(k)
                    ==> final(headers)@[k] == old(headers)@[k]),
            path@ == "/proxy"@ && !old(headers)@.contains_key("int_fp_jwt"@) ==> r == Err::<
                (),
                u16,
            >(400),
            path@ == "/proxy"@ && old(headers)@.contains_key("int_fp_jwt"@) && old(headers)@[
                "int_fp_jwt"@]@.len() == 0 ==> r == Err::<(), u16>(400),
            r is Ok && path@ == "/proxy"@ ==> {
                let tok = old(headers)@["int_fp_jwt"@]@;
                &&& old(headers)@.contains_key("int_fp_jwt"@)
                &&& self.sessions().contains_key(tok)
                &&& !final(headers)@.contains_key("int_fp_jwt"@)
                &&& final(headers)@.contains_key("fp_rp_jwt"@)
                &&& final(headers)@["fp_rp_jwt"@]@ == self.sessions()[tok].0.fp_rp_jwt@
            },
            r is Ok && !old(headers)@.contains_key("x-empty-body"@) ==> {
                &&& !final(headers)@.contains_key("content-length"@)
                &&& final(headers)@.contains_key("transfer-encoding"@)
                &&& final(headers)@["transfer-encoding"@]@ == "chunked"@
            },
            r is Ok && old(headers)@.contains_key("x-empty-body"@) && path@ != "/proxy"@
                ==> final(headers)@ == old(headers)@,
    {
        proof {
            broadcast use vstd::string::group_string_axioms;

            reveal_strlit("int_fp_jwt");
            reveal_strlit("fp_rp_jwt");
            reveal_strlit("x-empty-body");
            reveal_strlit("content-length");
            reveal_strlit("transfer-encoding");
            assert("int_fp_jwt"@.len() == 10);
            assert("fp_rp_jwt"@.len() == 9);
            assert("x-empty-body"@.len() == 12);
            assert("content-length"@.len() == 14);
            assert("transfer-encoding"@.len() == 17);
        }
        if str_eq(path, "/proxy") {
            let token: String = match headers.get("int_fp_jwt") {
                None => {
                    return Err(400);
                },
                Some(t) => t.clone(),
            };
            if token.as_str().unicode_len() == 0 {
                return Err(400);
            }
            match self.verify_int_fp_jwt(token.as_str()) {
                Ok(session) => {
                    let s = session.duplicate();
                    headers.set("fp_rp_jwt".to_owned(), s.fp_rp_jwt);
                    headers.remove("int_fp_jwt");
                },
                Err(_) => {
                    return Err(400);
                },
            }
        }
        let has_sentinel = match headers.get("x-empty-body") {
            Some(_) => true,
            None => false,
        };
        if !has_sentinel {
            headers.remove("content-length");
            headers.set("transfer-encoding".to_owned(), "chunked".to_owned());
        }
        Ok(())
    }
}


/// The response-filter rewrite both nodes apply on the way back to the
/// client: permissive CORS headers, and a non-zero `content-length` replaced
/// by chunked framing.  Every other header is left alone.
pub fn response_header_rewrite(headers: &mut StrMap)
    requires
        old(headers).wf(),
    ensures
        final(headers).wf(),
        final(headers)@.contains_key("access-control-allow-origin"@) && final(headers)@[
            "access-control-allow-origin"@]@ == "*"@,
        final(headers)@.contains_key("access-control-allow-methods"@) && final(headers)@[
            "access-control-allow-methods"@]@ == "POST"@,
        final(headers)@.contains_key("access-control-allow-headers"@) && final(headers)@[
            "access-control-allow-headers"@]@ == "*"@,
        old(headers)@.contains_key("content-length"@) && old(headers)@["content-length"@]@
            != "0"@ ==> !final(headers)@.contains_key("content-length"@) && final(headers)@.contains_key("transfer-encoding"@) && final(headers)@["transfer-encoding"@]@
            == "chunked"@,
        old(headers)@.contains_key("content-length"@) && old(headers)@["content-length"@]@
            == "0"@ ==> final(headers)@.contains_key("content-length"@) && final(headers)@[
            "content-length"@] == old(headers)@["content-length"@],
        forall|k: Seq<char>|
            k != "access-control-allow-origin"@ && k != "access-control-allow-methods"@ && k
                != "access-control-allow-headers"@ && k != "content-length"@ && k
                != "transfer-encoding"@ ==> ((#[trigger] final(headers)@.contains_key(k)) <==> old(headers)@.contains_key(k)) && (final(headers)@.contains_key(k) ==> final(headers)@[k] == old(headers)@[k]),
{
    proof {
        broadcast use vstd::string::group_string_axioms;

        reveal_strlit("access-control-allow-origin");
        reveal_strlit("access-control-allow-methods");
        reveal_strlit("access-control-allow-headers");
        reveal_strlit("content-length");
        reveal_strlit("transfer-encoding");
        assert("access-control-allow-origin"@.len() == 27);
        assert("access-control-allow-methods"@.len() == 28);
        assert("access-control-allow-headers"@.len() == 28);
        assert("access-control-allow-methods"@[24] == 'h');
        assert("access-control-allow-headers"@[24] == 'd');
        assert("content-length"@.len() == 14);
        assert("transfer-encoding"@.len() == 17);
    }
    headers.set("access-control-allow-origin".to_owned(), "*".to_owned());
    headers.set("access-control-allow-methods".to_owned(), "POST".to_owned());
    headers.set("access-control-allow-headers".to_owned(), "*".to_owned());
    let rechunk = match headers.get("content-length") {
        Some(v) => !crate::maps::str_eq(v.as_str(), "0"),
        None => false,
    };
    if rechunk {
        headers.remove("content-length");
        headers.set("transfer-encoding".to_owned(), "chunked".to_owned());
    }
}

} // verus!
