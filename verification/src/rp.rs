//! The reverse proxy: configuration, the shared-secret table keyed by
//! key-exchange session id, and the decisions of the `/init-tunnel` and
//! `/proxy` handlers.  The key exchange, the cipher and the backend fetch run
//! outside; each step here validates what came in, says what outside work is
//! needed, and turns the outcome into the next message.

use vstd::prelude::*;
use vstd::string::StrSliceExecFns;
use vstd::utf8::encode_utf8;
use crate::ctx::Layer8Context;
use crate::maps::ExpiringTable;
use crate::maps::str_eq;
use crate::router::APIHandlerResponse;
use crate::wire::EncryptedMessage;
use crate::wire::L8RequestObject;
use crate::wire::L8ResponseObject;
use crate::wire::InitEncryptedTunnelRequest;
use crate::wire::InitEncryptedTunnelResponse;
use crate::wire::RpHealthcheckSuccess;
use crate::wire::RpHealthcheckError;
use crate::wire::ser_str_obj;
use crate::wire::ser_envelope;
use crate::wire::p_envelope;
use crate::wire::ser_l8_response;
use crate::wire::p_l8_request;
use crate::wire::ser_init_tunnel_resp;
use crate::headers::HeaderList;
use crate::headers::header_bytes_of_hval;
use crate::headers::hval_of_header_bytes;
use crate::headers::json_to_header_value;
use crate::headers::header_value_to_json;
use crate::keys::k_error;
use crate::keys::k_sid;
use crate::keys::k_rp_healthcheck_success;
use crate::keys::k_rp_healthcheck_error;
use crate::jwt::JWTClaims;
use crate::jwt::ser_claims;
use crate::jwt::printable_claims;
use crate::jwt::lemma_claims_doc_signable;
use crate::jwt::p_claims_entries;
use crate::jwt::entry_num;
use crate::jwt::entry_str;
use crate::jwt::ostr;
use vstd::utf8::decode_utf8;
use vstd::utf8::decode_utf8_encode_utf8;
use crate::trusted::hs256_token;
use crate::trusted::jwt_verify;
use crate::trusted::jwt_claims_json;
use crate::trusted::jwt_sign;
use crate::trusted::new_uuid;
use crate::trusted::string_from_utf8;
use crate::fp::error_body;

verus! {

pub struct RPConfig {
    pub log: LogConfig,
    pub server: ServerConfig,
    pub tls: crate::tls::TlsConfig,
    pub handler: HandlerConfig,
}

pub struct LogConfig {
    pub log_path: String,
    pub log_level: String,
}

pub struct ServerConfig {
    pub listen_address: String,
    pub listen_port: u16,
}

pub struct HandlerConfig {
    pub ntor_server_id: String,
    pub ntor_static_secret: [u8; 32],
    pub jwt_virtual_connection_secret: Vec<u8>,
    pub jwt_exp_in_hours: i64,
    pub backend_url: String,
}

pub struct HeaderKeys;

impl HeaderKeys {
    pub fn fp_rp_jwt() -> (r: &'static str)
        ensures
            r@ == "fp_rp_jwt"@,
    {
        "fp_rp_jwt"
    }

    pub fn int_rp_jwt_key() -> (r: &'static str)
        ensures
            r@ == "int_rp_jwt"@,
    {
        "int_rp_jwt"
    }
}

pub struct LogTypes;

impl LogTypes {
    pub fn access_log() -> &'static str {
        "ACCESS_LOG"
    }

    pub fn access_log_result() -> &'static str {
        "ACCESS_LOG_RESULT"
    }

    pub fn handle_init_tunnel_request() -> &'static str {
        "HANDLE_INIT_TUNNEL_REQUEST"
    }

    pub fn handle_proxy_request() -> &'static str {
        "HANDLE_PROXY_REQUEST"
    }

    pub fn handle_backend_response() -> &'static str {
        "HANDLE_BACKEND_RESPONSE"
    }

    pub fn healthcheck() -> &'static str {
        "HEALTHCHECK"
    }

    pub fn tls_handshake() -> &'static str {
        "TLS_HANDSHAKE"
    }
}

/// The reverse proxy's long-lived state: configuration, the signing secret,
/// the key-exchange static secret, and the shared-secret table.
pub struct ReverseHandler {
    pub config: HandlerConfig,
    jwt_secret: Vec<u8>,
    ntor_static_secret: [u8; 32],
    ntor_shared_secrets: ExpiringTable<Vec<u8>>,
}

impl ReverseHandler {
    pub closed spec fn wf(&self) -> bool {
        self.ntor_shared_secrets.wf()
    }

    /// The shared-secret table: session id to `(secret, expiry)`.
    pub closed spec fn secrets(&self) -> Map<Seq<char>, (Vec<u8>, u64)> {
        self.ntor_shared_secrets@
    }

    pub closed spec fn cfg(&self) -> HandlerConfig {
        self.config
    }

    /// The key every token of this node is signed and checked with.
    pub closed spec fn signing_secret(&self) -> Seq<u8> {
        self.jwt_secret@
    }

    /// The long-term key-exchange secret.
    pub closed spec fn static_secret(&self) -> Seq<u8> {
        self.ntor_static_secret@
    }

    pub fn new(config: RPConfig) -> (r: ReverseHandler)
        ensures
            r.wf(),
            r.secrets() =~= Map::<Seq<char>, (Vec<u8>, u64)>::empty(),
            r.cfg() == config.handler,
            r.signing_secret() == config.handler.jwt_virtual_connection_secret@,
            r.static_secret() == config.handler.ntor_static_secret@,
    {
        let jwt_secret = config.handler.jwt_virtual_connection_secret.clone();
        let ntor_static_secret = config.handler.ntor_static_secret;
        ReverseHandler {
            config: config.handler,
            jwt_secret,
            ntor_static_secret,
            ntor_shared_secrets: ExpiringTable::new(),
        }
    }

    /// How many shared secrets are live.
    pub fn secret_count(&self) -> (r: usize)
        requires
            self.wf(),
        ensures
            r == self.secrets().dom().len(),
    {
        self.ntor_shared_secrets.len()
    }

    /// Bind a fresh session id to its shared secret.
    pub fn store_secret(&mut self, session_id: String, secret: Vec<u8>, exp: u64)
        requires
            old(self).wf(),
        ensures
            final(self).wf(),
            final(self).secrets() == old(self).secrets().insert(session_id@, (secret, exp)),
            final(self).cfg() == old(self).cfg(),
            final(self).signing_secret() == old(self).signing_secret(),
    {
        self.ntor_shared_secrets.insert(session_id, secret, exp);
    }

    /// Drop secrets whose session has outlived its token: the time-to-live.
    pub fn evict_expired_secrets(&mut self, now: u64)
        requires
            old(self).wf(),
        ensures
            final(self).wf(),
            forall|k: Seq<char>|
                #[trigger] final(self).secrets().contains_key(k) <==> (old(
                    self,
                ).secrets().contains_key(k) && old(self).secrets()[k].1 > now),
            final(self).cfg() == old(self).cfg(),
    {
        self.ntor_shared_secrets.evict_expired(now);
    }

    /// Look a session's shared secret up; an unknown or evicted id is
    /// refused as unauthorized.
    pub fn get_ntor_shared_secret(&self, session_id: &str) -> (r: Result<
        Vec<u8>,
        APIHandlerResponse,
    >)
        requires
            self.wf(),
        ensures
            r matches Ok(s) ==> self.secrets().contains_key(session_id@) && s@ == self.secrets()[
                session_id@].0@,
            r matches Err(e) ==> {
                &&& !self.secrets().contains_key(session_id@)
                &&& e.status == 401
                &&& e.body matches Some(b)
                &&& b@ == encode_utf8("Invalid or expired nTor session ID"@)
            },
    {
        match self.ntor_shared_secrets.get(session_id) {
            Some(secret) => {
                let s = secret.clone();
                proof {
                    assert(s@ == self.secrets()[session_id@].0@);
                }
                Ok(s)
            },
            None => Err(
                APIHandlerResponse::new(
                    401,
                    Some("Invalid or expired nTor session ID".as_bytes_vec()),
                ),
            ),
        }
    }

    /// Answer `/healthcheck`, mirroring the forward proxy's shape.
    pub fn handle_healthcheck(&self, ctx: &mut Layer8Context) -> (r: APIHandlerResponse)
        requires
            old(ctx).wf(),
        ensures
            final(ctx).wf(),
            ({
                let wants_error = old(ctx).request.summary.params@.contains_key("error"@) && old(
                    ctx,
                ).request.summary.params@["error"@]@ == "true"@;
                if wants_error {
                    &&& r.status == 418
                    &&& r.body matches Some(b)
                    &&& b@ == ser_str_obj(
                        k_rp_healthcheck_error(),
                        "this is placeholder for a custom error"@,
                    )
                    &&& final(ctx).response.header@.contains_key("x-rp-healthcheck-error"@)
                    &&& final(ctx).response.header@["x-rp-healthcheck-error"@]@
                        == "response-header-error"@
                } else {
                    &&& r.status == 200
                    &&& r.body matches Some(b)
                    &&& b@ == ser_str_obj(
                        k_rp_healthcheck_success(),
                        "this is placeholder for a custom body"@,
                    )
                    &&& final(ctx).response.header@.contains_key("x-rp-healthcheck-success"@)
                    &&& final(ctx).response.header@["x-rp-healthcheck-success"@]@
                        == "response-header-success"@
                }
            }),
    {
        let mut wants_error = false;
        match ctx.param("error") {
            Some(v) => {
                if str_eq(v.as_str(), "true") {
                    wants_error = true;
                }
            },
            None => {},
        }
        if wants_error {
            let body = RpHealthcheckError {
                rp_healthcheck_error: "this is placeholder for a custom error".to_owned(),
            }.to_bytes();
            ctx.insert_response_header("x-rp-healthcheck-error", "response-header-error");
            APIHandlerResponse::new(418, Some(body))
        } else {
            let body = RpHealthcheckSuccess {
                rp_healthcheck_success: "this is placeholder for a custom body".to_owned(),
            }.to_bytes();
            ctx.insert_response_header("x-rp-healthcheck-success", "response-header-success");
            APIHandlerResponse::new(200, Some(body))
        }
    }
}


// ---------------------------------------------------------------------------
// `/init-tunnel`: accept the client's key, and once the key exchange outside
// has run, bind the session and answer with the credentials.
// ---------------------------------------------------------------------------

/// What the key exchange produced: the server's ephemeral key, the
/// transcript hash, and the derived shared secret.
pub struct HandshakeOutcome {
    pub ephemeral_public_key: Vec<u8>,
    pub t_b_hash: Vec<u8>,
    pub shared_secret: Vec<u8>,
}

/// What the cipher outside said when asked to open an envelope.
pub enum DecryptOutcome {
    Plain(Vec<u8>),
    Failed(String),
}

/// What the cipher outside said when asked to seal a response.
pub enum EncryptOutcome {
    Sealed { nonce: Vec<u8>, data: Vec<u8> },
    Failed(String),
}

/// One reconstructed HTTP call for the backend.
pub struct BackendCall {
    pub method: String,
    pub url: String,
    pub headers: Vec<(Vec<u8>, Vec<u8>)>,
    pub body: Vec<u8>,
}

/// What came back from the backend.
pub enum BackendFetchOutcome {
    /// No answer arrived; the transport's best guess at a status.
    NoAnswer(u16),
    Answered { status: u16, status_text: String, headers: Vec<(Vec<u8>, Vec<u8>)>, body: Vec<u8>, url: String },
}

impl ReverseHandler {
    /// Check an `/init-tunnel` body: it must parse and carry a key of
    /// exactly 32 bytes.
    pub fn init_tunnel_accept(&self, ctx: &Layer8Context) -> (r: Result<
        Vec<u8>,
        APIHandlerResponse,
    >)
        requires
            ctx.wf(),
        ensures
            crate::wire::p_init_tunnel_req(ctx.req_body()) is None ==> {
                &&& r matches Err(e)
                &&& e.status == 400
                &&& e.body matches Some(b)
                &&& b@ == ser_str_obj(k_error(), "invalid request body"@)
            },
            crate::wire::p_init_tunnel_req(ctx.req_body()) matches Some(pk) ==> {
                if pk.len() == 32 {
                    &&& r matches Ok(k)
                    &&& k@ == pk
                } else {
                    &&& r matches Err(e)
                    &&& e.status == 400
                    &&& e.body matches Some(b)
                    &&& b@ == encode_utf8("Invalid public key length"@)
                }
            },
    {
        let body = ctx.get_request_body();
        let parsed = match InitEncryptedTunnelRequest::from_bytes(body.as_slice()) {
            Some(m) => m,
            None => {
                return Err(
                    APIHandlerResponse::new(400, Some(error_body("invalid request body"))),
                );
            },
        };
        if parsed.public_key.len() != 32 {
            return Err(
                APIHandlerResponse::new(
                    400,
                    Some("Invalid public key length".as_bytes_vec()),
                ),
            );
        }
        Ok(parsed.public_key)
    }

    /// Bind the freshly derived shared secret under a new session id, mint
    /// the two bearer tokens, and build the answer; this always succeeds.
    /// The interceptor's token carries the minted session id as its `sid`
    /// claim; the inter-proxy token carries none.  Returns the session id
    /// alongside so the caller can follow the binding.
    pub fn init_tunnel_complete(&mut self, outcome: HandshakeOutcome) -> (r: (
        APIHandlerResponse,
        Option<String>,
    ))
        requires
            old(self).wf(),
        ensures
            final(self).wf(),
            final(self).cfg() == old(self).cfg(),
            final(self).signing_secret() == old(self).signing_secret(),
            r.0.status == 200,
            r.1 matches Some(sid) && {
                &&& final(self).secrets() == old(self).secrets().insert(
                    sid@,
                    (final(self).secrets()[sid@].0, final(self).secrets()[sid@].1),
                )
                &&& final(self).secrets().contains_key(sid@)
                &&& final(self).secrets()[sid@].0@ == outcome.shared_secret@
                &&& r.0.body matches Some(b)
                &&& exists|c1: JWTClaims, c2: JWTClaims|
                    #![trigger ser_claims(c1), ser_claims(c2)]
                    {
                        &&& b@ == ser_init_tunnel_resp(
                            outcome.ephemeral_public_key@,
                            outcome.t_b_hash@,
                            hs256_token(decode_utf8(ser_claims(c1)), old(self).signing_secret()),
                            hs256_token(decode_utf8(ser_claims(c2)), old(self).signing_secret()),
                        )
                        &&& crate::jwt::ostr(c1.ntor_session_id) == Some(sid@)
                        &&& c2.ntor_session_id is None
                        &&& (old(self).cfg().jwt_exp_in_hours >= 0 ==> c1.iat <= c1.exp
                            && c2.iat <= c2.exp)
                        &&& (old(self).cfg().jwt_exp_in_hours >= 0
                            && old(self).cfg().jwt_exp_in_hours * 3600 <= u64::MAX - c1.iat
                            ==> c1.exp == c1.iat + old(self).cfg().jwt_exp_in_hours * 3600)
                        &&& (old(self).cfg().jwt_exp_in_hours >= 0
                            && old(self).cfg().jwt_exp_in_hours * 3600 <= u64::MAX - c2.iat
                            ==> c2.exp == c2.iat + old(self).cfg().jwt_exp_in_hours * 3600)
                    }
            },
    {
        let ntor_session_id = new_uuid();
        let mut claims1 = JWTClaims::new(Some(self.config.jwt_exp_in_hours));
        claims1.ntor_session_id = Some(ntor_session_id.clone());
        let exp = claims1.exp;
        let ghost gc1 = claims1;
        proof {
            assert(printable_claims(gc1)) by {
                assert(crate::json::printable_chars(ntor_session_id@));
            }
            lemma_claims_doc_signable(gc1);
        }
        let c1_bytes = claims1.to_json_bytes();
        let c1_str = match string_from_utf8(c1_bytes) {
            Some(s) => s,
            None => {
                proof {
                    assert(false);
                }
                return (APIHandlerResponse::new(500, None), None);
            },
        };
        proof {
            decode_utf8_encode_utf8(ser_claims(gc1));
            assert(exists|c: JWTClaims|
                vstd::utf8::encode_utf8(c1_str@) == #[trigger] ser_claims(c)
                    && crate::jwt::wf_claims(c)) by {
                assert(vstd::utf8::encode_utf8(c1_str@) == ser_claims(gc1)
                    && crate::jwt::wf_claims(gc1));
            }
        }
        let int_rp_jwt = match jwt_sign(c1_str.as_str(), self.jwt_secret.as_slice()) {
            Ok(t) => t,
            Err(_) => {
                proof {
                    assert(false);
                }
                return (APIHandlerResponse::new(500, None), None);
            },
        };
        let claims2 = JWTClaims::new(Some(self.config.jwt_exp_in_hours));
        let ghost gc2 = claims2;
        proof {
            assert(printable_claims(gc2));
            lemma_claims_doc_signable(gc2);
        }
        let c2_bytes = claims2.to_json_bytes();
        let c2_str = match string_from_utf8(c2_bytes) {
            Some(s) => s,
            None => {
                proof {
                    assert(false);
                }
                return (APIHandlerResponse::new(500, None), None);
            },
        };
        proof {
            decode_utf8_encode_utf8(ser_claims(gc2));
            assert(exists|c: JWTClaims|
                vstd::utf8::encode_utf8(c2_str@) == #[trigger] ser_claims(c)
                    && crate::jwt::wf_claims(c)) by {
                assert(vstd::utf8::encode_utf8(c2_str@) == ser_claims(gc2)
                    && crate::jwt::wf_claims(gc2));
            }
        }
        let fp_rp_jwt = match jwt_sign(c2_str.as_str(), self.jwt_secret.as_slice()) {
            Ok(t) => t,
            Err(_) => {
                proof {
                    assert(false);
                }
                return (APIHandlerResponse::new(500, None), None);
            },
        };
        let ghost gsid = ntor_session_id@;
        self.store_secret(ntor_session_id.clone(), outcome.shared_secret, exp);
        let response = InitEncryptedTunnelResponse {
            public_key: outcome.ephemeral_public_key,
            t_b_hash: outcome.t_b_hash,
            int_rp_jwt,
            fp_rp_jwt,
        };
        let body = response.to_bytes();
        proof {
            assert(final(self).secrets().contains_key(gsid));
            assert(body@ == ser_init_tunnel_resp(
                response.public_key@,
                response.t_b_hash@,
                hs256_token(decode_utf8(ser_claims(gc1)), old(self).signing_secret()),
                hs256_token(decode_utf8(ser_claims(gc2)), old(self).signing_secret()),
            ));
            assert(crate::jwt::ostr(gc1.ntor_session_id) == Some(gsid));
        }
        (APIHandlerResponse::new(200, Some(body)), Some(ntor_session_id))
    }

    /// Check one bearer token from a request header: present, non-empty and
    /// verified outside; the parsed claims come back.
    fn validate_jwt_token(&self, ctx: &Layer8Context, header_key: &str) -> (r: Result<
        JWTClaims,
        APIHandlerResponse,
    >)
        requires
            ctx.wf(),
        ensures
            !ctx.request.header@.contains_key(header_key@) ==> {
                &&& r matches Err(e)
                &&& e.status == 400
                &&& e.body matches Some(b)
                &&& b@ == ser_str_obj(k_error(), "Missing "@ + header_key@ + " header"@)
            },
            ctx.request.header@.contains_key(header_key@) && ctx.request.header@[header_key@]@.len()
                == 0 ==> {
                &&& r matches Err(e)
                &&& e.status == 400
                &&& e.body matches Some(b)
                &&& b@ == ser_str_obj(k_error(), "Empty "@ + header_key@ + " header"@)
            },
            r matches Err(e) ==> e.status == 400,
            r matches Ok(c) ==> {
                let tok = ctx.request.header@[header_key@]@;
                &&& ctx.request.header@.contains_key(header_key@)
                &&& tok.len() > 0
                &&& p_claims_entries(encode_utf8(jwt_claims_json(tok))) matches Some(es) && {
                    &&& ostr(c.ntor_session_id) == entry_str(es, k_sid())
                    &&& ostr(c.aud) == entry_str(es, crate::keys::k_aud())
                    &&& ostr(c.iss) == entry_str(es, crate::keys::k_iss())
                    &&& ostr(c.jti) == entry_str(es, crate::keys::k_jti())
                    &&& ostr(c.sub) == entry_str(es, crate::keys::k_sub())
                    &&& ostr(c.rp_host) == entry_str(es, crate::keys::k_upstream())
                    &&& c.exp == entry_num(es, crate::keys::k_exp())
                    &&& c.iat == entry_num(es, crate::keys::k_iat())
                    &&& c.nbf == entry_num(es, crate::keys::k_nbf())
                }
            },
    {
        let token: String = match ctx.get_request_header(header_key) {
            None => {
                let mut msg: String = "Missing ".to_owned();
                msg.append(header_key);
                msg.append(" header");
                return Err(APIHandlerResponse::new(400, Some(error_body(msg.as_str()))));
            },
            Some(t) => t.clone(),
        };
        if token.as_str().unicode_len() == 0 {
            let mut msg: String = "Empty ".to_owned();
            msg.append(header_key);
            msg.append(" header");
            return Err(APIHandlerResponse::new(400, Some(error_body(msg.as_str()))));
        }
        let claims_json = match jwt_verify(token.as_str(), self.jwt_secret.as_slice()) {
            Ok(c) => c,
            Err(e) => {
                return Err(APIHandlerResponse::new(400, Some(error_body(e.as_str()))));
            },
        };
        match JWTClaims::from_json_bytes(claims_json.as_str().as_bytes()) {
            Some(c) => Ok(c),
            None => Err(APIHandlerResponse::new(400, Some(error_body("malformed claims")))),
        }
    }

    /// Check the two bearer tokens of a `/proxy` request and recover the
    /// session id from the interceptor's token.  A request missing either
    /// token is refused before anything else happens.
    pub fn validate_request_headers(&self, ctx: &Layer8Context) -> (r: Result<
        String,
        APIHandlerResponse,
    >)
        requires
            ctx.wf(),
        ensures
            !ctx.request.header@.contains_key("fp_rp_jwt"@) ==> {
                &&& r matches Err(e)
                &&& e.status == 400
                &&& e.body matches Some(b)
                &&& b@ == ser_str_obj(k_error(), "Missing fp_rp_jwt header"@)
            },
            !ctx.request.header@.contains_key("int_rp_jwt"@) ==> {
                &&& r matches Err(e)
                &&& e.status == 400
            },
            ctx.request.header@.contains_key("fp_rp_jwt"@) && ctx.request.header@["fp_rp_jwt"@]@.len()
                > 0 && !ctx.request.header@.contains_key("int_rp_jwt"@) ==> {
                &&& r matches Err(e)
                &&& e.body matches Some(b)
                &&& b@ == ser_str_obj(k_error(), "Missing int_rp_jwt header"@)
            },
            ctx.request.header@.contains_key("fp_rp_jwt"@) && ctx.request.header@["fp_rp_jwt"@]@.len()
                > 0 && ctx.request.header@.contains_key("int_rp_jwt"@) && ctx.request.header@[
                "int_rp_jwt"@]@.len() == 0 ==> {
                &&& r matches Err(e)
                &&& e.body matches Some(b)
                &&& b@ == ser_str_obj(k_error(), "Empty int_rp_jwt header"@)
            },
            r matches Err(e) ==> e.status == 400,
            r matches Ok(sid) ==> {
                let tok = ctx.request.header@["int_rp_jwt"@]@;
                &&& ctx.request.header@.contains_key("fp_rp_jwt"@)
                &&& ctx.request.header@.contains_key("int_rp_jwt"@)
                &&& p_claims_entries(encode_utf8(jwt_claims_json(tok))) matches Some(es)
                    && entry_str(es, k_sid()) == Some(sid@)
            },
    {
        proof {
            broadcast use vstd::string::group_string_axioms;

            reveal_strlit("fp_rp_jwt");
            reveal_strlit("int_rp_jwt");
            reveal_strlit("Missing ");
            reveal_strlit(" header");
            reveal_strlit("Missing fp_rp_jwt header");
            reveal_strlit("Missing int_rp_jwt header");
            assert("fp_rp_jwt"@.len() == 9);
            assert("int_rp_jwt"@.len() == 10);
            assert("Missing "@.len() == 8);
            assert(" header"@.len() == 7);
            assert("Missing fp_rp_jwt header"@.len() == 24);
            assert("Missing int_rp_jwt header"@.len() == 25);
            assert("Missing "@ + "fp_rp_jwt"@ + " header"@ =~= "Missing fp_rp_jwt header"@);
            assert("Missing "@ + "int_rp_jwt"@ + " header"@ =~= "Missing int_rp_jwt header"@);
            reveal_strlit("Empty ");
            reveal_strlit("Empty int_rp_jwt header");
            assert("Empty "@.len() == 6);
            assert("Empty int_rp_jwt header"@.len() == 23);
            assert("Empty "@ + "int_rp_jwt"@ + " header"@ =~= "Empty int_rp_jwt header"@);
        }
        // both tokens must be there before either is inspected further
        match ctx.get_request_header("fp_rp_jwt") {
            None => {
                return Err(
                    APIHandlerResponse::new(
                        400,
                        Some(error_body("Missing fp_rp_jwt header")),
                    ),
                );
            },
            Some(t) => {
                if t.as_str().unicode_len() == 0 {
                    return Err(
                        APIHandlerResponse::new(
                            400,
                            Some(error_body("Empty fp_rp_jwt header")),
                        ),
                    );
                }
            },
        }
        match ctx.get_request_header("int_rp_jwt") {
            None => {
                return Err(
                    APIHandlerResponse::new(
                        400,
                        Some(error_body("Missing int_rp_jwt header")),
                    ),
                );
            },
            Some(t) => {
                if t.as_str().unicode_len() == 0 {
                    return Err(
                        APIHandlerResponse::new(
                            400,
                            Some(error_body("Empty int_rp_jwt header")),
                        ),
                    );
                }
            },
        }
        match self.validate_jwt_token(ctx, "fp_rp_jwt") {
            Ok(_claims) => {},
            Err(e) => {
                return Err(e);
            },
        }
        let claims = match self.validate_jwt_token(ctx, "int_rp_jwt") {
            Ok(c) => c,
            Err(e) => {
                return Err(e);
            },
        };
        match claims.ntor_session_id {
            Some(sid) => Ok(sid),
            None => Err(
                APIHandlerResponse::new(
                    400,
                    Some(error_body("Missing ntor_session_id in JWT claims")),
                ),
            ),
        }
    }

    /// Parse the request body as the encrypted envelope.
    pub fn validate_request_body(&self, ctx: &Layer8Context) -> (r: Result<
        EncryptedMessage,
        APIHandlerResponse,
    >)
        requires
            ctx.wf(),
        ensures
            p_envelope(ctx.req_body()) is None ==> {
                &&& r matches Err(e)
                &&& e.status == 400
                &&& e.body matches Some(b)
                &&& b@ == encode_utf8("Failed to parse request body"@)
            },
            p_envelope(ctx.req_body()) matches Some(m) ==> {
                &&& r matches Ok(env)
                &&& env.nonce@ == m.0
                &&& env.data@ == m.1
            },
    {
        let body = ctx.get_request_body();
        match EncryptedMessage::from_bytes(body.as_slice()) {
            Some(env) => Ok(env),
            None => Err(
                APIHandlerResponse::new(
                    400,
                    Some("Failed to parse request body".as_bytes_vec()),
                ),
            ),
        }
    }

    /// Take what the cipher gave back for the request: a failure is the
    /// client's fault; a plaintext must decode as a wrapped request.
    pub fn decrypt_request_done(&self, outcome: DecryptOutcome) -> (r: Result<
        L8RequestObject,
        APIHandlerResponse,
    >)
        ensures
            outcome matches DecryptOutcome::Failed(msg) ==> {
                &&& r matches Err(e)
                &&& e.status == 400
                &&& e.body matches Some(b)
                &&& b@ == encode_utf8("Decryption failed: "@ + msg@)
            },
            outcome matches DecryptOutcome::Plain(p) ==> {
                match p_l8_request(p@) {
                    None => {
                        &&& r matches Err(e)
                        &&& e.status == 400
                        &&& e.body matches Some(b)
                        &&& b@ == encode_utf8("Failed to parse request body"@)
                    },
                    Some(m) => {
                        &&& r matches Ok(req)
                        &&& req.method@ == m.0
                        &&& req.uri@ == m.1
                        &&& req.headers@ == m.2
                        &&& req.body@ == m.3
                    },
                }
            },
    {
        let plain = match outcome {
            DecryptOutcome::Failed(msg) => {
                let mut text: String = "Decryption failed: ".to_owned();
                text.append(msg.as_str());
                return Err(APIHandlerResponse::new(400, Some(text.as_str().as_bytes_vec())));
            },
            DecryptOutcome::Plain(p) => p,
        };
        match L8RequestObject::from_bytes(plain.as_slice()) {
            Some(req) => Ok(req),
            None => Err(
                APIHandlerResponse::new(
                    400,
                    Some("Failed to parse request body".as_bytes_vec()),
                ),
            ),
        }
    }

    /// Reconstruct the backend call from a wrapped request: the URL is the
    /// configured base plus the wrapped URI; each header value is rebuilt
    /// from its JSON form.
    pub fn make_backend_call(&self, req: L8RequestObject) -> (r: BackendCall)
        ensures
            r.method@ == req.method@,
            r.url@ == self.cfg().backend_url@ + req.uri@,
            r.body@ == req.body@,
            r.headers@.len() == req.headers@.len(),
            forall|i: int|
                0 <= i < r.headers@.len() ==> #[trigger] r.headers@[i].0@ == req.headers@[i].0
                    && r.headers@[i].1@ == header_bytes_of_hval(req.headers@[i].1),
    {
        let mut url = self.config.backend_url.clone();
        url.append(req.uri.as_str());
        let mut headers: Vec<(Vec<u8>, Vec<u8>)> = Vec::new();
        let mut i: usize = 0;
        while i < req.headers.entries.len()
            invariant
                i <= req.headers.entries@.len(),
                req.headers@.len() == req.headers.entries@.len(),
                headers@.len() == i,
                forall|j: int|
                    0 <= j < i ==> #[trigger] headers@[j].0@ == req.headers@[j].0 && headers@[j].1@
                        == header_bytes_of_hval(req.headers@[j].1),
            decreases req.headers.entries@.len() - i,
        {
            let entry = &req.headers.entries[i];
            let name = entry.0.clone();
            let value = json_to_header_value(&entry.1);
            proof {
                assert(req.headers@[i as int] == (
                    req.headers.entries@[i as int].0@,
                    req.headers.entries@[i as int].1@,
                ));
            }
            headers.push((name, value));
            i = i + 1;
        }
        BackendCall { method: req.method, url, headers, body: req.body }
    }

    /// Wrap what the backend answered (or that it did not) for the client:
    /// a transport failure is a bad gateway; an answer becomes a wrapped
    /// response whose `redirected` notes a final URL differing from the one
    /// issued.
    pub fn backend_response_done(&self, issued_url: &str, outcome: BackendFetchOutcome) -> (r:
        Result<Vec<u8>, APIHandlerResponse>)
        ensures
            outcome matches BackendFetchOutcome::NoAnswer(st) ==> {
                &&& r matches Err(e)
                &&& e.status == 502
                &&& e.body matches Some(b)
                &&& b@ == ser_str_obj(
                    k_error(),
                    "Backend error: "@ + crate::util::dec_str(st as u64),
                )
            },
            outcome matches BackendFetchOutcome::Answered { status, status_text, headers, body, url }
                ==> {
                &&& r matches Ok(plain)
                &&& plain@ == ser_l8_response(
                    status,
                    status_text@,
                    headers@.map_values(
                        |e: (Vec<u8>, Vec<u8>)| (e.0@, hval_of_header_bytes(e.1@)),
                    ),
                    body@,
                    200 <= status < 300,
                    url@,
                    url@ != issued_url@,
                )
            },
    {
        let (status, status_text, headers, body, url) = match outcome {
            BackendFetchOutcome::NoAnswer(st) => {
                let mut msg: String = "Backend error: ".to_owned();
                let sts = crate::util::u64_to_string(st as u64);
                msg.append(sts.as_str());
                return Err(APIHandlerResponse::new(502, Some(error_body(msg.as_str()))));
            },
            BackendFetchOutcome::Answered { status, status_text, headers, body, url } => (
                status,
                status_text,
                headers,
                body,
                url,
            ),
        };
        let mut jheaders = HeaderList::new();
        let mut i: usize = 0;
        while i < headers.len()
            invariant
                i <= headers@.len(),
                jheaders@ =~= headers@.map_values(
                    |e: (Vec<u8>, Vec<u8>)| (e.0@, hval_of_header_bytes(e.1@)),
                ).take(i as int),
            decreases headers@.len() - i,
        {
            let entry = &headers[i];
            let hv = header_value_to_json(entry.1.as_slice());
            let name = entry.0.clone();
            jheaders.push(name, hv);
            proof {
                let m = headers@.map_values(
                    |e: (Vec<u8>, Vec<u8>)| (e.0@, hval_of_header_bytes(e.1@)),
                );
                assert(jheaders@ =~= m.take(i + 1 as int));
            }
            i = i + 1;
        }
        proof {
            let m = headers@.map_values(
                |e: (Vec<u8>, Vec<u8>)| (e.0@, hval_of_header_bytes(e.1@)),
            );
            assert(m.take(m.len() as int) =~= m);
        }
        let ok = 200 <= status && status < 300;
        let redirected = !str_eq(url.as_str(), issued_url);
        let wrapped = L8ResponseObject {
            status,
            status_text,
            headers: jheaders,
            body,
            ok,
            url,
            redirected,
        };
        Ok(wrapped.to_bytes())
    }

    /// Seal the wrapped response: a cipher failure is internal; a sealed
    /// envelope goes out only with a fresh 12-byte nonce.
    pub fn encrypt_response_done(&self, outcome: EncryptOutcome) -> (r: APIHandlerResponse)
        ensures
            outcome matches EncryptOutcome::Failed(msg) ==> {
                &&& r.status == 500
                &&& r.body matches Some(b)
                &&& b@ == encode_utf8("Encryption failed: "@ + msg@)
            },
            outcome matches EncryptOutcome::Sealed { nonce, data } ==> {
                if nonce@.len() == 12 {
                    &&& r.status == 200
                    &&& r.body matches Some(b)
                    &&& b@ == ser_envelope(nonce@, data@)
                } else {
                    &&& r.status == 500
                    &&& r.body matches Some(b)
                    &&& b@ == encode_utf8("Encryption failed: malformed nonce"@)
                }
            },
    {
        match outcome {
            EncryptOutcome::Failed(msg) => {
                let mut text: String = "Encryption failed: ".to_owned();
                text.append(msg.as_str());
                APIHandlerResponse::new(500, Some(text.as_str().as_bytes_vec()))
            },
            EncryptOutcome::Sealed { nonce, data } => {
                if nonce.len() != 12 {
                    let text: String = "Encryption failed: malformed nonce".to_owned();
                    return APIHandlerResponse::new(500, Some(text.as_str().as_bytes_vec()));
                }
                let env = EncryptedMessage { nonce, data };
                let body = env.to_bytes();
                APIHandlerResponse::new(200, Some(body))
            },
        }
    }
}


/// Where a routed request goes on this node.
#[derive(Clone, Copy, PartialEq, Eq, Structural, Debug)]
pub enum RouteKind {
    Preflight,
    InitTunnel,
    Proxy,
    Healthcheck,
    NotFound,
}

/// Route a request: a preflight is always answered, anything unregistered is
/// not routed, and the three known paths go to their handlers.
pub fn route_of(router: &crate::router::Router, method: crate::ctx::Method, path: &str) -> (r:
    RouteKind)
    ensures
        method == crate::ctx::Method::Options ==> r == RouteKind::Preflight,
        method != crate::ctx::Method::Options && !crate::router::routed(*router, method, path@)
            ==> r == RouteKind::NotFound,
        method == crate::ctx::Method::Post && crate::router::routed(*router, method, path@) && path@
            == "/init-tunnel"@ ==> r == RouteKind::InitTunnel,
        method == crate::ctx::Method::Post && crate::router::routed(*router, method, path@) && path@
            == "/proxy"@ ==> r == RouteKind::Proxy,
        method == crate::ctx::Method::Get && crate::router::routed(*router, method, path@) && path@
            == "/healthcheck"@ ==> r == RouteKind::Healthcheck,
{
    proof {
        broadcast use vstd::string::group_string_axioms;

        reveal_strlit("/init-tunnel");
        reveal_strlit("/proxy");
        reveal_strlit("/healthcheck");
        assert("/init-tunnel"@.len() == 12);
        assert("/healthcheck"@.len() == 12);
        assert("/proxy"@.len() == 6);
        assert("/init-tunnel"@[1] == 'i');
        assert("/healthcheck"@[1] == 'h');
        assert("/init-tunnel"@ != "/healthcheck"@);
    }
    if method == crate::ctx::Method::Options {
        return RouteKind::Preflight;
    }
    if !router.contains(method, path) {
        return RouteKind::NotFound;
    }
    if method == crate::ctx::Method::Post && str_eq(path, "/init-tunnel") {
        return RouteKind::InitTunnel;
    }
    if method == crate::ctx::Method::Post && str_eq(path, "/proxy") {
        return RouteKind::Proxy;
    }
    if method == crate::ctx::Method::Get && str_eq(path, "/healthcheck") {
        return RouteKind::Healthcheck;
    }
    RouteKind::NotFound
}

} // verus!
