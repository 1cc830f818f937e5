//! The reverse proxy's tunnel and proxy pipeline on concrete requests.

use layer8_proxy::ctx::Layer8Context;
use layer8_proxy::ctx::Layer8ContextRequestSummary;
use layer8_proxy::ctx::Method;
use layer8_proxy::rp::ReverseHandler;
use layer8_proxy::rp::RPConfig;
use layer8_proxy::rp::LogConfig;
use layer8_proxy::rp::ServerConfig;
use layer8_proxy::rp::HandlerConfig;
use layer8_proxy::rp::HandshakeOutcome;
use layer8_proxy::rp::DecryptOutcome;
use layer8_proxy::rp::EncryptOutcome;
use layer8_proxy::rp::BackendFetchOutcome;
use layer8_proxy::rp_legacy::HeaderKeys;
use layer8_proxy::tls::TlsConfig;
use layer8_proxy::wire::EncryptedMessage;
use layer8_proxy::wire::InitEncryptedTunnelRequest;
use layer8_proxy::wire::InitTunnelResponseFromRP;
use layer8_proxy::wire::L8RequestObject;
use layer8_proxy::headers::HeaderList;
use layer8_proxy::headers::HeaderVal;

fn handler() -> ReverseHandler {
    ReverseHandler::new(RPConfig {
        log: LogConfig { log_path: "console".to_string(), log_level: "INFO".to_string() },
        server: ServerConfig { listen_address: "127.0.0.1".to_string(), listen_port: 6193 },
        tls: TlsConfig {
            enable_tls: false,
            ca_cert: String::new(),
            cert: String::new(),
            key: String::new(),
        },
        handler: HandlerConfig {
            ntor_server_id: "https://svc.example:8443/".to_string(),
            ntor_static_secret: [3; 32],
            jwt_virtual_connection_secret: b"rp-secret-rp-secret".to_vec(),
            jwt_exp_in_hours: 1,
            backend_url: "http://backend:3000".to_string(),
        },
    })
}

fn ctx_with_body(body: Vec<u8>) -> Layer8Context {
    let mut ctx = Layer8Context::new();
    let mut summary = Layer8ContextRequestSummary::new();
    summary.method = Method::Post;
    summary.path = "/proxy".to_string();
    ctx.set_request_summary(summary);
    ctx.set_request_body(body);
    ctx
}

#[test]
fn short_public_key_is_400() {
    let h = handler();
    let body = InitEncryptedTunnelRequest { public_key: vec![1; 31] }.to_bytes();
    let ctx = ctx_with_body(body);
    let e = h.init_tunnel_accept(&ctx).err().expect("31 bytes are refused");
    assert_eq!(e.status, 400);
    assert_eq!(e.body.unwrap(), b"Invalid public key length".to_vec());
}

#[test]
fn full_public_key_is_accepted() {
    let h = handler();
    let body = InitEncryptedTunnelRequest { public_key: vec![1; 32] }.to_bytes();
    let ctx = ctx_with_body(body);
    assert_eq!(h.init_tunnel_accept(&ctx).ok().unwrap(), vec![1; 32]);
}

#[test]
fn handshake_completion_binds_exactly_one_secret() {
    let mut h = handler();
    assert_eq!(h.secret_count(), 0);
    let (resp, sid) = h.init_tunnel_complete(HandshakeOutcome {
        ephemeral_public_key: vec![7; 32],
        t_b_hash: vec![8; 32],
        shared_secret: vec![9; 32],
    });
    assert_eq!(resp.status, 200);
    let sid = sid.expect("a session id is minted");
    assert_eq!(sid.len(), 36);
    assert_eq!(h.secret_count(), 1);
    assert_eq!(h.get_ntor_shared_secret(&sid).ok().unwrap(), vec![9; 32]);

    // the answer parses as the forward proxy will read it, and the minted
    // interceptor token names the same session id
    let parsed = InitTunnelResponseFromRP::from_bytes(&resp.body.unwrap()).unwrap();
    assert_eq!(parsed.public_key, vec![7; 32]);
    assert_eq!(parsed.t_b_hash, vec![8; 32]);
    let claims_json = layer8_proxy::trusted::jwt_verify(
        &parsed.int_rp_jwt,
        b"rp-secret-rp-secret",
    ).expect("the minted token verifies");
    let claims = layer8_proxy::jwt::JWTClaims::from_json_bytes(claims_json.as_bytes())
        .expect("claims parse");
    assert_eq!(claims.ntor_session_id.unwrap(), sid);

    // the whole admission path accepts the two tokens and finds the secret
    let mut ctx = ctx_with_body(vec![]);
    ctx.set_request_header("fp_rp_jwt".to_string(), parsed.fp_rp_jwt.clone());
    ctx.set_request_header("int_rp_jwt".to_string(), parsed.int_rp_jwt.clone());
    let got_sid = h.validate_request_headers(&ctx).ok().expect("both tokens verify");
    assert_eq!(got_sid, sid);
}

#[test]
fn missing_fp_token_is_400_before_anything_else() {
    let h = handler();
    let ctx = ctx_with_body(vec![]);
    let e = h.validate_request_headers(&ctx).err().unwrap();
    assert_eq!(e.status, 400);
    assert_eq!(
        String::from_utf8(e.body.unwrap()).unwrap(),
        "{\"error\":\"Missing fp_rp_jwt header\"}"
    );
}

#[test]
fn missing_int_token_is_400() {
    let mut h = handler();
    let (resp, _) = h.init_tunnel_complete(HandshakeOutcome {
        ephemeral_public_key: vec![0; 32],
        t_b_hash: vec![0; 32],
        shared_secret: vec![0; 32],
    });
    let parsed = InitTunnelResponseFromRP::from_bytes(&resp.body.unwrap()).unwrap();
    let mut ctx = ctx_with_body(vec![]);
    ctx.set_request_header("fp_rp_jwt".to_string(), parsed.fp_rp_jwt);
    let e = h.validate_request_headers(&ctx).err().unwrap();
    assert_eq!(e.status, 400);
    assert_eq!(
        String::from_utf8(e.body.unwrap()).unwrap(),
        "{\"error\":\"Missing int_rp_jwt header\"}"
    );
}

#[test]
fn empty_fp_token_is_400_distinct_from_missing() {
    let h = handler();
    let mut ctx = ctx_with_body(vec![]);
    ctx.set_request_header("fp_rp_jwt".to_string(), String::new());
    let e = h.validate_request_headers(&ctx).err().unwrap();
    assert_eq!(e.status, 400);
    assert_eq!(
        String::from_utf8(e.body.unwrap()).unwrap(),
        "{\"error\":\"Empty fp_rp_jwt header\"}"
    );
}

#[test]
fn token_without_session_claim_is_400() {
    let h = handler();
    // both tokens verify, but neither carries a session id claim
    let claims = layer8_proxy::jwt::JWTClaims::new(Some(1));
    let json = String::from_utf8(claims.to_json_bytes()).unwrap();
    let tok = layer8_proxy::trusted::jwt_sign(&json, b"rp-secret-rp-secret").unwrap();
    let mut ctx = ctx_with_body(vec![]);
    ctx.set_request_header("fp_rp_jwt".to_string(), tok.clone());
    ctx.set_request_header("int_rp_jwt".to_string(), tok);
    let e = h.validate_request_headers(&ctx).err().unwrap();
    assert_eq!(e.status, 400);
    assert_eq!(
        String::from_utf8(e.body.unwrap()).unwrap(),
        "{\"error\":\"Missing ntor_session_id in JWT claims\"}"
    );
}

#[test]
fn unknown_session_id_is_401_with_exact_body() {
    let h = handler();
    let e = h.get_ntor_shared_secret("00000000-0000-4000-8000-000000000000").err().unwrap();
    assert_eq!(e.status, 401);
    assert_eq!(e.body.unwrap(), b"Invalid or expired nTor session ID".to_vec());
}

#[test]
fn expired_secret_is_evicted() {
    let mut h = handler();
    h.store_secret("sid-1".to_string(), vec![1], 50);
    assert_eq!(h.secret_count(), 1);
    h.evict_expired_secrets(50);
    assert_eq!(h.secret_count(), 0);
    assert_eq!(h.get_ntor_shared_secret("sid-1").err().unwrap().status, 401);
}

#[test]
fn degenerate_envelope_parses_then_decryption_fails() {
    let h = handler();
    // the envelope with empty nonce and data is well-formed JSON
    let ctx = ctx_with_body(b"{\"nonce\":[],\"data\":[]}".to_vec());
    let env = h.validate_request_body(&ctx).ok().expect("the shape parses");
    assert_eq!(env.nonce, Vec::<u8>::new());
    assert_eq!(env.data, Vec::<u8>::new());
    // whatever the cipher said goes back as a 400 with its message
    let e = h.decrypt_request_done(DecryptOutcome::Failed("aead open failed".to_string()))
        .err()
        .unwrap();
    assert_eq!(e.status, 400);
    assert_eq!(e.body.unwrap(), b"Decryption failed: aead open failed".to_vec());
}

#[test]
fn unparseable_envelope_is_400() {
    let h = handler();
    let ctx = ctx_with_body(b"not json".to_vec());
    let e = h.validate_request_body(&ctx).err().unwrap();
    assert_eq!(e.status, 400);
    assert_eq!(e.body.unwrap(), b"Failed to parse request body".to_vec());
}

#[test]
fn decrypted_request_becomes_backend_call() {
    let h = handler();
    let mut headers = HeaderList::new();
    headers.push(b"accept".to_vec(), HeaderVal::Text(b"application/json".to_vec()));
    headers.push(b"x-rate".to_vec(), HeaderVal::Other(b"7".to_vec()));
    let wrapped = L8RequestObject {
        method: "PUT".to_string(),
        uri: "/v2/data".to_string(),
        headers,
        body: vec![1, 2],
    };
    let plain = wrapped.to_bytes();
    let req = h.decrypt_request_done(DecryptOutcome::Plain(plain)).ok().expect("parses");
    let call = h.make_backend_call(req);
    assert_eq!(call.method, "PUT");
    assert_eq!(call.url, "http://backend:3000/v2/data");
    assert_eq!(call.body, vec![1, 2]);
    assert_eq!(call.headers.len(), 2);
    assert_eq!(call.headers[0], (b"accept".to_vec(), b"application/json".to_vec()));
    assert_eq!(call.headers[1], (b"x-rate".to_vec(), b"7".to_vec()));
}

#[test]
fn backend_answer_is_wrapped_with_redirect_flag() {
    let h = handler();
    let out_r = h.backend_response_done(
        "http://backend:3000/v2/data",
        BackendFetchOutcome::Answered {
            status: 200,
            status_text: "OK".to_string(),
            headers: vec![(b"server".to_vec(), b"demo".to_vec())],
            body: vec![5, 6],
            url: "http://backend:3000/v2/data/final".to_string(),
        },
    );
    let text = String::from_utf8(out_r.ok().expect("an answer wraps")).unwrap();
    assert!(text.contains("\"redirected\":true"));
    assert!(text.contains("\"status\":200"));
    assert!(text.contains("\"ok\":true"));
}

#[test]
fn backend_transport_failure_is_502() {
    let h = handler();
    let e = h.backend_response_done("http://b/x", BackendFetchOutcome::NoAnswer(500))
        .err()
        .unwrap();
    assert_eq!(e.status, 502);
    assert_eq!(
        String::from_utf8(e.body.unwrap()).unwrap(),
        "{\"error\":\"Backend error: 500\"}"
    );
}

#[test]
fn sealed_response_keeps_a_twelve_byte_nonce() {
    let h = handler();
    let r = h.encrypt_response_done(EncryptOutcome::Sealed {
        nonce: vec![1; 12],
        data: vec![2, 3],
    });
    assert_eq!(r.status, 200);
    let env = EncryptedMessage::from_bytes(&r.body.unwrap()).unwrap();
    assert_eq!(env.nonce.len(), 12);
    // a malformed nonce never leaves the node
    let bad = h.encrypt_response_done(EncryptOutcome::Sealed { nonce: vec![1; 11], data: vec![] });
    assert_eq!(bad.status, 500);
}

#[test]
fn encryption_failure_is_500_with_reason() {
    let h = handler();
    let r = h.encrypt_response_done(EncryptOutcome::Failed("no secret".to_string()));
    assert_eq!(r.status, 500);
    assert_eq!(r.body.unwrap(), b"Encryption failed: no secret".to_vec());
}

#[test]
fn rp_healthcheck_answers_both_ways() {
    let h = handler();
    let mut ctx = Layer8Context::new();
    let mut summary = Layer8ContextRequestSummary::new();
    summary.params.set("error".to_string(), "true".to_string());
    ctx.set_request_summary(summary);
    let r = h.handle_healthcheck(&mut ctx);
    assert_eq!(r.status, 418);
    assert_eq!(
        String::from_utf8(r.body.unwrap()).unwrap(),
        "{\"rp_healthcheck_error\":\"this is placeholder for a custom error\"}"
    );
    let mut ctx2 = Layer8Context::new();
    let r2 = h.handle_healthcheck(&mut ctx2);
    assert_eq!(r2.status, 200);
    assert_eq!(
        String::from_utf8(r2.body.unwrap()).unwrap(),
        "{\"rp_healthcheck_success\":\"this is placeholder for a custom body\"}"
    );
}

#[test]
fn legacy_header_names_are_kept() {
    assert_eq!(HeaderKeys::RpHeaderRequestKey.as_str(), "rp_request_header");
    assert_eq!(HeaderKeys::IntHeaderRequestKey.as_str(), "int_request_header");
    assert_eq!(HeaderKeys::RpHeaderResponseKey.placeholder_value(), "added in ReverseProxy");
    assert_eq!(HeaderKeys::BeHeaderResponseKey.placeholder_value(), "");
}

#[test]
fn routing_decision_matches_the_table() {
    let mut router = layer8_proxy::router::Router::new();
    router.post("/init-tunnel".to_string());
    router.post("/proxy".to_string());
    router.get("/healthcheck".to_string());
    assert_eq!(
        layer8_proxy::rp::route_of(&router, Method::Options, "/x"),
        layer8_proxy::rp::RouteKind::Preflight
    );
    assert_eq!(
        layer8_proxy::rp::route_of(&router, Method::Post, "/init-tunnel"),
        layer8_proxy::rp::RouteKind::InitTunnel
    );
    assert_eq!(
        layer8_proxy::rp::route_of(&router, Method::Post, "/proxy"),
        layer8_proxy::rp::RouteKind::Proxy
    );
    assert_eq!(
        layer8_proxy::rp::route_of(&router, Method::Get, "/healthcheck"),
        layer8_proxy::rp::RouteKind::Healthcheck
    );
    assert_eq!(
        layer8_proxy::rp::route_of(&router, Method::Get, "/proxy"),
        layer8_proxy::rp::RouteKind::NotFound
    );
}

#[test]
fn common_handler_copies_headers_onto_the_response() {
    let h = handler();
    let _ = h;
    let mut ctx = Layer8Context::new();
    let headers = vec![
        ("server".to_string(), "demo".to_string()),
        ("x-extra".to_string(), "1".to_string()),
    ];
    layer8_proxy::rp_legacy::CommonHandler::create_response_headers(&headers, &mut ctx, "marker", 9);
    assert_eq!(ctx.get_response_header("server").unwrap(), "demo");
    assert_eq!(ctx.get_response_header("x-extra").unwrap(), "1");
    assert_eq!(ctx.get_response_header("rp_response_header").unwrap(), "marker");
    assert_eq!(ctx.get_response_header("content-length").unwrap(), "9");
}
