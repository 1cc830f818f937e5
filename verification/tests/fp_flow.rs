//! The forward proxy's request pipeline on concrete requests.

use layer8_proxy::ctx::Layer8Context;
use layer8_proxy::ctx::Layer8ContextRequestSummary;
use layer8_proxy::ctx::Method;
use layer8_proxy::ctx::StrMap;
use layer8_proxy::fp::ForwardHandler;
use layer8_proxy::fp::HandlerConfig;
use layer8_proxy::fp::FilterDecision;
use layer8_proxy::fp::CertFetchOutcome;
use layer8_proxy::fp::IntFPSession;
use layer8_proxy::fp::is_socket_addr_check;
use layer8_proxy::jwt::JWTClaims;
use layer8_proxy::router::Router;
use layer8_proxy::router::get_base_path;
use layer8_proxy::stats::Statistics;
use layer8_proxy::stats::CounterKind;
use layer8_proxy::tls::verify_client_decision;
use layer8_proxy::tls::ClientVerifyError;
use layer8_proxy::wire::InitTunnelRequest;
use layer8_proxy::wire::InitEncryptedTunnelResponse;

fn handler() -> ForwardHandler {
    ForwardHandler::new(HandlerConfig {
        jwt_virtual_connection_key: b"0123456789abcdef".to_vec(),
        jwt_exp_in_hours: 2,
        auth_access_token: "token-token".to_string(),
        auth_get_certificate_url: "https://auth.example/certs/".to_string(),
    })
}

fn ctx_for(method: Method, path: &str) -> Layer8Context {
    let mut ctx = Layer8Context::new();
    let mut summary = Layer8ContextRequestSummary::new();
    summary.method = method;
    summary.path = path.to_string();
    ctx.set_request_summary(summary);
    ctx
}

#[test]
fn options_preflight_answers_204_without_routing() {
    let h = handler();
    let mut ctx = ctx_for(Method::Options, "/anything");
    match h.request_filter_route(&mut ctx) {
        FilterDecision::Respond { status, body, close } => {
            assert_eq!(status, 204);
            assert!(body.is_none());
            assert!(close);
        },
        _ => panic!("OPTIONS must answer at once"),
    }
}

#[test]
fn unknown_route_is_404() {
    let h = handler();
    let mut ctx = ctx_for(Method::Get, "/nope");
    match h.request_filter_route(&mut ctx) {
        FilterDecision::Respond { status, body, .. } => {
            assert_eq!(status, 404);
            assert!(body.is_none());
        },
        _ => panic!("unknown routes are not forwarded"),
    }
}

#[test]
fn healthcheck_success_body_and_header() {
    let h = handler();
    let mut ctx = ctx_for(Method::Get, "/healthcheck");
    let mut summary = Layer8ContextRequestSummary::new();
    summary.path = "/healthcheck".to_string();
    summary.params.set("error".to_string(), "false".to_string());
    ctx.set_request_summary(summary);
    match h.request_filter_route(&mut ctx) {
        FilterDecision::Respond { status, body, .. } => {
            assert_eq!(status, 200);
            assert_eq!(
                String::from_utf8(body.unwrap()).unwrap(),
                "{\"fp_healthcheck_success\":\"this is placeholder for a custom body\"}"
            );
        },
        _ => panic!("healthcheck answers inline"),
    }
    assert_eq!(
        ctx.get_response_header("x-fp-healthcheck-success").unwrap(),
        "response-header-success"
    );
}

#[test]
fn healthcheck_error_is_teapot() {
    let h = handler();
    let mut ctx = ctx_for(Method::Get, "/healthcheck");
    let mut summary = Layer8ContextRequestSummary::new();
    summary.path = "/healthcheck".to_string();
    summary.params.set("error".to_string(), "true".to_string());
    ctx.set_request_summary(summary);
    match h.request_filter_route(&mut ctx) {
        FilterDecision::Respond { status, body, .. } => {
            assert_eq!(status, 418);
            assert_eq!(
                String::from_utf8(body.unwrap()).unwrap(),
                "{\"fp_healthcheck_error\":\"this is placeholder for a custom error\"}"
            );
        },
        _ => panic!("healthcheck answers inline"),
    }
    assert_eq!(
        ctx.get_response_header("x-fp-healthcheck-error").unwrap(),
        "response-header-error"
    );
}

#[test]
fn proxy_without_token_is_400_with_exact_body() {
    let h = handler();
    let mut ctx = ctx_for(Method::Post, "/proxy");
    match h.request_filter_route(&mut ctx) {
        FilterDecision::Respond { status, body, close } => {
            assert_eq!(status, 400);
            assert!(close);
            assert_eq!(
                String::from_utf8(body.unwrap()).unwrap(),
                "{\"error\":\"Missing int_fp_jwt header\"}"
            );
        },
        _ => panic!("missing token is refused"),
    }
}

#[test]
fn proxy_with_empty_token_is_400_distinct_body() {
    let h = handler();
    let mut ctx = ctx_for(Method::Post, "/proxy");
    ctx.set_request_header("int_fp_jwt".to_string(), "".to_string());
    match h.request_filter_route(&mut ctx) {
        FilterDecision::Respond { status, body, .. } => {
            assert_eq!(status, 400);
            assert_eq!(
                String::from_utf8(body.unwrap()).unwrap(),
                "{\"error\":\"Empty int_fp_jwt header\"}"
            );
        },
        _ => panic!("empty token is refused"),
    }
}

#[test]
fn init_tunnel_without_backend_url_is_400() {
    let h = handler();
    let mut ctx = ctx_for(Method::Post, "/init-tunnel");
    match h.request_filter_route(&mut ctx) {
        FilterDecision::Respond { status, body, .. } => {
            assert_eq!(status, 400);
            assert_eq!(
                String::from_utf8(body.unwrap()).unwrap(),
                "{\"error\":\"backend_url is a required param\"}"
            );
        },
        _ => panic!("the parameter is required"),
    }
}

#[test]
fn init_tunnel_request_plans_cert_fetch() {
    let h = handler();
    let mut ctx = ctx_for(Method::Post, "/init-tunnel");
    let mut summary = Layer8ContextRequestSummary::new();
    summary.method = Method::Post;
    summary.path = "/init-tunnel".to_string();
    summary.params.set("backend_url".to_string(), "https://svc.example:8443/".to_string());
    ctx.set_request_summary(summary);
    let body = InitTunnelRequest { public_key: vec![7; 32] }.to_bytes();
    ctx.set_request_body(body.clone());
    let (forward, plan) = h.init_tunnel_request_check(&ctx).ok().expect("valid body");
    assert_eq!(forward, body);
    assert_eq!(plan.url, "https://auth.example/certs/svc.example:8443/");
    assert_eq!(plan.authorization, "Bearer token-token");
}

#[test]
fn cert_fetch_connection_failure_is_500() {
    let h = handler();
    let mut ctx = ctx_for(Method::Post, "/init-tunnel");
    let r = h.init_tunnel_request_finish(
        &mut ctx,
        vec![],
        CertFetchOutcome::NoConnect("refused".to_string()),
    );
    assert_eq!(r.status, 500);
    assert_eq!(
        String::from_utf8(r.body.unwrap()).unwrap(),
        "{\"error\":\"Failed to connect to layer8: refused\"}"
    );
}

#[test]
fn cert_fetch_bad_status_is_500_and_closes() {
    // credential-lookup failures answer as internal errors with the
    // connection closed
    let h = handler();
    let mut ctx = ctx_for(Method::Post, "/init-tunnel");
    let r = h.init_tunnel_request_finish(
        &mut ctx,
        vec![],
        CertFetchOutcome::Answered { status: 503, body: vec![] },
    );
    assert_eq!(r.status, 500);
    assert_eq!(
        String::from_utf8(r.body.unwrap()).unwrap(),
        "{\"error\":\"Failed to get public key from layer8, status code: 503\"}"
    );
    assert_eq!(ctx.get_response_header("connection").unwrap(), "close");
}

#[test]
fn cert_fetch_unparseable_certificate_is_500() {
    let h = handler();
    let mut ctx = ctx_for(Method::Post, "/init-tunnel");
    let answer = b"{\"x509_certificate\":\"not a pem\"}".to_vec();
    let r = h.init_tunnel_request_finish(
        &mut ctx,
        vec![],
        CertFetchOutcome::Answered { status: 200, body: answer },
    );
    assert_eq!(r.status, 500);
    assert!(r.body.is_none());
    assert_eq!(ctx.get_response_header("connection").unwrap(), "close");
}

#[test]
fn init_tunnel_response_binds_exactly_one_session() {
    let mut h = handler();
    let mut ctx = ctx_for(Method::Post, "/init-tunnel");
    let mut summary = Layer8ContextRequestSummary::new();
    summary.method = Method::Post;
    summary.path = "/init-tunnel".to_string();
    summary.params.set("backend_url".to_string(), "https://svc.example:8443/".to_string());
    ctx.set_request_summary(summary);
    ctx.set("ntor_server_id".to_string(), "https://svc.example:8443/".to_string());
    ctx.set("ntor_static_public_key".to_string(), hex_of(&[5u8; 32]));
    let from_rp = InitEncryptedTunnelResponse {
        public_key: vec![9; 32],
        t_b_hash: vec![4; 32],
        int_rp_jwt: "rp.token.one".to_string(),
        fp_rp_jwt: "rp.token.two".to_string(),
    }.to_bytes();
    ctx.set_response_body(from_rp);
    assert_eq!(h.session_count(), 0);
    let r = h.handle_init_tunnel_response(&mut ctx);
    assert_eq!(r.status, 200);
    assert_eq!(h.session_count(), 1);

    // the interceptor-facing body carries the minted token as jwt2
    let body = String::from_utf8(r.body.unwrap()).unwrap();
    let parsed: serde_json::Value = serde_json::from_str(&body).unwrap();
    let jwt2 = parsed["jwt2"].as_str().unwrap().to_string();
    assert_eq!(parsed["jwt1"].as_str().unwrap(), "rp.token.one");
    assert_eq!(parsed["server_id"].as_str().unwrap(), "https://svc.example:8443/");
    assert_eq!(parsed["public_key"].as_array().unwrap().len(), 32);
    assert_eq!(parsed["t_b_hash"].as_array().unwrap().len(), 32);

    // the minted token verifies and recovers the bound session
    let session = h.verify_int_fp_jwt(&jwt2).ok().expect("freshly minted token verifies");
    assert_eq!(session.rp_base_url, "https://svc.example:8443/");
    assert_eq!(session.fp_rp_jwt, "rp.token.two");

    // and the bound session drives the proxy admission end to end
    let mut pctx = ctx_for(Method::Post, "/proxy");
    pctx.set_request_header("int_fp_jwt".to_string(), jwt2.clone());
    match h.request_filter_route(&mut pctx) {
        FilterDecision::NeedResolve { url } => {
            assert_eq!(url, "https://svc.example:8443/");
        },
        _ => panic!("a bound token is admitted"),
    }
    assert_eq!(pctx.get("fp_rp_jwt").unwrap(), "rp.token.two");
}

fn hex_of(bytes: &[u8]) -> String {
    layer8_proxy::util::hex_encode(bytes)
}

#[test]
fn unknown_token_is_refused() {
    let h = handler();
    // a structurally valid token signed with the right key, but never bound
    let claims = JWTClaims::new(Some(1));
    let json = String::from_utf8(claims.to_json_bytes()).unwrap();
    let token =
        layer8_proxy::trusted::jwt_sign(&json, b"0123456789abcdef").expect("signing works");
    let e = h.verify_int_fp_jwt(&token).err().expect("an unbound token is refused");
    assert!(matches!(e, layer8_proxy::fp::TokenCheckError::UnknownToken));
    assert_eq!(e.message(), "token not found!");
}

#[test]
fn expired_session_is_evicted() {
    let mut h = handler();
    h.store_session(
        "tok".to_string(),
        IntFPSession {
            rp_base_url: "u".to_string(),
            fp_rp_jwt: "j".to_string(),
            client_id: String::new(),
        },
        100,
    );
    assert_eq!(h.session_count(), 1);
    h.evict_expired_sessions(99);
    assert_eq!(h.session_count(), 1);
    h.evict_expired_sessions(100);
    assert_eq!(h.session_count(), 0);
}

#[test]
fn failed_address_is_dropped_before_retry() {
    let h = handler();
    let mut ctx = Layer8Context::new();
    ctx.set("upstream_address".to_string(), "10.0.0.1:443,10.0.0.2:443".to_string());
    let retry = h.drop_failed_address(&mut ctx, true);
    assert!(retry);
    assert_eq!(ctx.get("upstream_address").unwrap(), "10.0.0.2:443");
    // the last address exhausts the list
    let retry2 = h.drop_failed_address(&mut ctx, true);
    assert!(!retry2);
    assert_eq!(ctx.get("upstream_address").unwrap(), "10.0.0.2:443");
    // a non-retryable error never touches the list
    assert!(!h.drop_failed_address(&mut ctx, false));
}

#[test]
fn bound_upstream_addresses_parse_as_socket_addrs() {
    let h = handler();
    let mut ctx = Layer8Context::new();
    h.bind_upstream(&mut ctx, "https://127.0.0.1:8443/").ok().expect("literal address resolves");
    let bound = ctx.get("upstream_address").unwrap().clone();
    assert!(!bound.is_empty());
    for part in bound.split(',') {
        assert!(is_socket_addr_check(part), "bound entry {part} must be host:port");
    }
    let first = h.first_upstream_address(&ctx).expect("an address is bound");
    assert_eq!(first.0, bound.split(',').next().unwrap());
}

#[test]
fn invalid_backend_url_is_refused() {
    let h = handler();
    let mut ctx = Layer8Context::new();
    let e = h.bind_upstream(&mut ctx, "not a url").err().expect("must refuse");
    assert_eq!(e.status, 400);
    assert_eq!(
        String::from_utf8(e.body.unwrap()).unwrap(),
        "{\"error\":\"Invalid backend_url\"}"
    );
}

#[test]
fn upstream_rewrite_swaps_tokens_and_chunks() {
    let mut h = handler();
    // bind a session so the token verifies
    let claims = JWTClaims::new(Some(1));
    let json = String::from_utf8(claims.to_json_bytes()).unwrap();
    let token = layer8_proxy::trusted::jwt_sign(&json, b"0123456789abcdef").unwrap();
    h.store_session(
        token.clone(),
        IntFPSession {
            rp_base_url: "https://rp/".to_string(),
            fp_rp_jwt: "fp.rp.token".to_string(),
            client_id: String::new(),
        },
        u64::MAX,
    );
    let mut headers = StrMap::new();
    headers.set("int_fp_jwt".to_string(), token);
    headers.set("content-length".to_string(), "11".to_string());
    h.upstream_request_rewrite("/proxy", &mut headers).expect("valid token passes");
    assert!(headers.get("int_fp_jwt").is_none());
    assert_eq!(headers.get("fp_rp_jwt").unwrap(), "fp.rp.token");
    assert!(headers.get("content-length").is_none());
    assert_eq!(headers.get("transfer-encoding").unwrap(), "chunked");
}

#[test]
fn upstream_rewrite_keeps_empty_body_sentinel() {
    let h = handler();
    let mut headers = StrMap::new();
    headers.set("x-empty-body".to_string(), "1".to_string());
    headers.set("content-length".to_string(), "0".to_string());
    h.upstream_request_rewrite("/other", &mut headers).expect("nothing to check");
    assert_eq!(headers.get("content-length").unwrap(), "0");
    assert!(headers.get("transfer-encoding").is_none());
}

#[test]
fn request_body_cap_yields_413() {
    let mut ctx = Layer8Context::new();
    ctx.body_limit = 8;
    assert!(ctx.absorb_request_chunk(&[0; 8]).is_none());
    assert_eq!(ctx.absorb_request_chunk(&[0; 1]), Some(413));
    assert_eq!(ctx.get_request_body().len(), 8);
}

#[test]
fn counters_follow_path_and_status() {
    let r = Statistics::update("/proxy", 123, 200);
    assert_eq!(r.len(), 3);
    assert_eq!(r[0].kind, CounterKind::TotalRequest);
    assert_eq!(r[1].kind, CounterKind::TotalByteTransferred);
    assert_eq!(r[1].value, 123);
    assert_eq!(r[2].kind, CounterKind::TotalSuccess);
    let r2 = Statistics::update("/init-tunnel", 0, 200);
    assert_eq!(r2.len(), 2);
    assert_eq!(r2[1].kind, CounterKind::TotalTunnelInitiated);
    let r3 = Statistics::update("/proxy", 5, 400);
    assert_eq!(r3.len(), 1);
}

#[test]
fn router_knows_its_paths() {
    let mut router = Router::new();
    router.post("/init-tunnel".to_string());
    router.post("/proxy".to_string());
    router.get("/healthcheck?error=false".to_string());
    assert!(router.contains(Method::Post, "/proxy"));
    assert!(router.contains(Method::Get, "/healthcheck"));
    assert!(router.contains(Method::Options, "/whatever"));
    assert!(!router.contains(Method::Get, "/proxy"));
    assert!(!router.contains(Method::Post, "/nope"));
    assert_eq!(get_base_path("/healthcheck?error=false"), "/healthcheck");
    assert_eq!(get_base_path("/plain"), "/plain");
}

#[test]
fn client_certificate_policy() {
    assert_eq!(
        verify_client_decision(false, true, true),
        Err(ClientVerifyError::InternalError)
    );
    assert_eq!(
        verify_client_decision(true, false, true),
        Err(ClientVerifyError::NoCertificate)
    );
    assert_eq!(
        verify_client_decision(true, true, false),
        Err(ClientVerifyError::BadCertificate)
    );
    assert_eq!(verify_client_decision(true, true, true), Ok(()));
}

#[test]
fn issued_claims_keep_the_configured_lifetime() {
    let claims = JWTClaims::new(Some(2));
    assert!(claims.iat <= claims.exp);
    assert_eq!(claims.exp - claims.iat, 2 * 3600);
    let no_exp = JWTClaims::new(None);
    assert_eq!(no_exp.exp, 0);
}

const TEST_CERT_PEM: &str = "-----BEGIN CERTIFICATE-----\nMIIBgjCCASegAwIBAgIUeH5b+ILp439qtTA+jdhgyNrNZAcwCgYIKoZIzj0EAwIw\nFjEUMBIGA1UEAwwLc3ZjLmV4YW1wbGUwHhcNMjYxMDEyMDgwNDE0WhcNMzYxMDA5\nMDgwNDE0WjAWMRQwEgYDVQQDDAtzdmMuZXhhbXBsZTBZMBMGByqGSM49AgEGCCqG\nSM49AwEHA0IABNTo62eQ0eHMSwCj0fOO7Xc5PvozcwT6shpPaDOSVG7UMNMxJmo0\nPPr50PupqBLtmUtAnr2BqfXf4nMRDy24k6SjUzBRMB0GA1UdDgQWBBRJ9+xlRLvd\nId0yk6L8GHJiXe7GqjAfBgNVHSMEGDAWgBRJ9+xlRLvdId0yk6L8GHJiXe7GqjAP\nBgNVHRMBAf8EBTADAQH/MAoGCCqGSM49BAMCA0kAMEYCIQCv5D4s0LLbqA9YPCiu\npPUjZ5N5Gwo8GtONcufJnDe1aQIhAMqSASc6LYHCebyEjKSzLfm8Q179iW/WK43A\naQmdy4+a\n-----END CERTIFICATE-----\n";

#[test]
fn certificate_key_extraction() {
    let key = layer8_proxy::trusted::extract_x509_pem(TEST_CERT_PEM)
        .expect("a well-formed certificate parses");
    // an uncompressed P-256 point: one tag byte and two 32-byte coordinates
    assert_eq!(key.len(), 65);
    assert_eq!(key[0], 0x04);
    assert!(layer8_proxy::trusted::extract_x509_pem("not a pem").is_none());
}

#[test]
fn cert_fetch_success_binds_credentials() {
    let h = handler();
    let mut ctx = ctx_for(Method::Post, "/init-tunnel");
    let mut summary = Layer8ContextRequestSummary::new();
    summary.method = Method::Post;
    summary.path = "/init-tunnel".to_string();
    summary.params.set("backend_url".to_string(), "https://svc.example:8443/".to_string());
    ctx.set_request_summary(summary);
    // the answer as the authentication server would really encode it, with
    // the PEM's newlines escaped
    let mut obj = serde_json::Map::new();
    obj.insert(
        "x509_certificate".to_string(),
        serde_json::Value::String(TEST_CERT_PEM.to_string()),
    );
    let body = serde_json::to_vec(&serde_json::Value::Object(obj)).unwrap();
    let forward = InitTunnelRequest { public_key: vec![7; 32] }.to_bytes();
    let r = h.init_tunnel_request_finish(
        &mut ctx,
        forward.clone(),
        CertFetchOutcome::Answered { status: 200, body },
    );
    assert_eq!(r.status, 200);
    assert_eq!(r.body.unwrap(), forward);
    assert_eq!(ctx.get("ntor_server_id").unwrap(), "https://svc.example:8443/");
    let stored = ctx.get("ntor_static_public_key").unwrap().clone();
    let key = layer8_proxy::util::hex_decode(&stored).unwrap();
    assert_eq!(key.len(), 65);
    assert_eq!(key[0], 0x04);
}

#[test]
fn query_strings_parse_with_last_binding_winning() {
    let params = layer8_proxy::ctx::parse_query("error=false&backend_url=https://b/&error=true");
    assert_eq!(params.get("error").unwrap(), "true");
    assert_eq!(params.get("backend_url").unwrap(), "https://b/");
    assert!(params.get("missing").is_none());
    let more = layer8_proxy::ctx::parse_query("flagonly&k=");
    assert!(more.get("flagonly").is_none());
    assert_eq!(more.get("k").unwrap(), "");
    let empty = layer8_proxy::ctx::parse_query("");
    assert!(empty.get("k").is_none());
}

#[test]
fn resolved_addresses_are_filtered_and_joined_in_order() {
    let h = handler();
    let mut ctx = Layer8Context::new();
    let addrs = vec![
        "10.0.0.1:443".to_string(),
        "not an address".to_string(),
        "10.0.0.2:8443".to_string(),
    ];
    h.bind_resolved_upstream(&mut ctx, &addrs, "svc.example".to_string())
        .ok()
        .expect("two well-shaped addresses remain");
    assert_eq!(ctx.get("upstream_address").unwrap(), "10.0.0.1:443,10.0.0.2:8443");
    assert_eq!(ctx.get("upstream_sni").unwrap(), "svc.example");
    // a list with no well-shaped entry is refused with the exact body
    let mut ctx2 = Layer8Context::new();
    let e = h.bind_resolved_upstream(&mut ctx2, &vec!["nope".to_string()], String::new())
        .err()
        .unwrap();
    assert_eq!(e.status, 400);
    assert_eq!(
        String::from_utf8(e.body.unwrap()).unwrap(),
        "{\"error\":\"Invalid backend_url\"}"
    );
    assert!(ctx2.get("upstream_address").is_none());
}

#[test]
fn retryable_failure_with_more_addresses_always_retries() {
    let h = handler();
    let mut ctx = Layer8Context::new();
    ctx.set("upstream_address".to_string(), "10.0.0.1:443,10.0.0.2:443".to_string());
    assert!(h.drop_failed_address(&mut ctx, true));
}

#[test]
fn nonproxy_rewrite_always_passes() {
    let h = handler();
    let mut headers = StrMap::new();
    headers.set("content-length".to_string(), "5".to_string());
    headers.set("x-keep-me".to_string(), "kept".to_string());
    h.upstream_request_rewrite("/init-tunnel", &mut headers).ok().expect("no token is needed");
    // untouched headers survive the rewrite
    assert_eq!(headers.get("x-keep-me").unwrap(), "kept");
    assert_eq!(headers.get("transfer-encoding").unwrap(), "chunked");
}

#[test]
fn response_rewrite_adds_cors_and_rechunks() {
    let mut headers = StrMap::new();
    headers.set("content-length".to_string(), "12".to_string());
    headers.set("server".to_string(), "demo".to_string());
    layer8_proxy::fp::response_header_rewrite(&mut headers);
    assert_eq!(headers.get("access-control-allow-origin").unwrap(), "*");
    assert_eq!(headers.get("access-control-allow-methods").unwrap(), "POST");
    assert_eq!(headers.get("access-control-allow-headers").unwrap(), "*");
    assert!(headers.get("content-length").is_none());
    assert_eq!(headers.get("transfer-encoding").unwrap(), "chunked");
    assert_eq!(headers.get("server").unwrap(), "demo");
    // a zero-length body keeps its framing
    let mut empty = StrMap::new();
    empty.set("content-length".to_string(), "0".to_string());
    layer8_proxy::fp::response_header_rewrite(&mut empty);
    assert_eq!(empty.get("content-length").unwrap(), "0");
    assert!(empty.get("transfer-encoding").is_none());
}

#[test]
fn standard_tokens_mint_and_verify() {
    let token = layer8_proxy::util::generate_standard_token("secret").ok().expect("always mints");
    let claims_json =
        layer8_proxy::trusted::jwt_verify(&token, b"secret").expect("fresh token verifies");
    let claims =
        layer8_proxy::jwt::JWTClaims::from_json_bytes(claims_json.as_bytes()).expect("parses");
    assert_eq!(claims.exp - claims.iat, 86400);
}
