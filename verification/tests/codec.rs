//! The wire codec against concrete bytes, and against the JSON library the
//! rest of the world uses.

use layer8_proxy::wire::EncryptedMessage;
use layer8_proxy::wire::InitTunnelRequest;
use layer8_proxy::wire::InitEncryptedTunnelResponse;
use layer8_proxy::wire::InitTunnelResponseFromRP;
use layer8_proxy::wire::L8RequestObject;
use layer8_proxy::wire::L8ResponseObject;
use layer8_proxy::wire::ErrorResponse;
use layer8_proxy::wire::AuthServerResponse;
use layer8_proxy::headers::HeaderList;
use layer8_proxy::headers::HeaderVal;
use layer8_proxy::headers::header_value_to_json;
use layer8_proxy::headers::json_to_header_value;
use layer8_proxy::util::hex_encode;
use layer8_proxy::util::hex_decode;
use layer8_proxy::util::u64_to_string;
use layer8_proxy::util::string_to_array32;
use layer8_proxy::util::is_zero;
use layer8_proxy::util::get_secret_key;
use layer8_proxy::trusted::bytes_to_string;

#[test]
fn envelope_serializes_canonically() {
    let env = EncryptedMessage { nonce: vec![1, 2, 3], data: vec![255, 0] };
    let bytes = env.to_bytes();
    assert_eq!(bytes, b"{\"nonce\":[1,2,3],\"data\":[255,0]}".to_vec());
}

#[test]
fn envelope_round_trips() {
    let env = EncryptedMessage { nonce: (0..12).collect(), data: vec![9, 8, 7, 6] };
    let bytes = env.to_bytes();
    let back = EncryptedMessage::from_bytes(&bytes).expect("canonical envelope must parse");
    assert_eq!(back.nonce, env.nonce);
    assert_eq!(back.data, env.data);
}

#[test]
fn envelope_matches_serde_json() {
    // the canonical form is exactly what the JSON library itself emits
    let env = EncryptedMessage { nonce: vec![0, 200], data: vec![17] };
    let mine = env.to_bytes();
    let mut obj = serde_json::Map::new();
    obj.insert(
        "nonce".to_string(),
        serde_json::Value::Array(vec![0u8, 200]
            .into_iter()
            .map(|b| serde_json::Value::from(b))
            .collect()),
    );
    obj.insert(
        "data".to_string(),
        serde_json::Value::Array(vec![serde_json::Value::from(17u8)]),
    );
    // serde_json object serialization is key-ordered, so compare via a reparse
    let parsed: serde_json::Value = serde_json::from_slice(&mine).expect("valid JSON");
    assert_eq!(parsed, serde_json::Value::Object(obj));
}

#[test]
fn envelope_rejects_trailing_garbage() {
    let env = EncryptedMessage { nonce: vec![1], data: vec![2] };
    let mut bytes = env.to_bytes();
    bytes.push(b' ');
    assert!(EncryptedMessage::from_bytes(&bytes).is_none());
}

#[test]
fn init_tunnel_request_round_trips() {
    let req = InitTunnelRequest { public_key: (0..32).collect() };
    let bytes = req.to_bytes();
    let back = InitTunnelRequest::from_bytes(&bytes).expect("must parse");
    assert_eq!(back.public_key, req.public_key);
}

#[test]
fn init_tunnel_response_round_trips() {
    let resp = InitEncryptedTunnelResponse {
        public_key: vec![1; 32],
        t_b_hash: vec![2; 32],
        int_rp_jwt: "tok.en.one".to_string(),
        fp_rp_jwt: "tok.en.two".to_string(),
    };
    let bytes = resp.to_bytes();
    let back = InitTunnelResponseFromRP::from_bytes(&bytes).expect("must parse");
    assert_eq!(back.public_key, resp.public_key);
    assert_eq!(back.t_b_hash, resp.t_b_hash);
    assert_eq!(back.int_rp_jwt, resp.int_rp_jwt);
    assert_eq!(back.fp_rp_jwt, resp.fp_rp_jwt);
}

#[test]
fn init_tunnel_response_uses_obfuscated_keys() {
    let resp = InitEncryptedTunnelResponse {
        public_key: vec![],
        t_b_hash: vec![],
        int_rp_jwt: "a".to_string(),
        fp_rp_jwt: "b".to_string(),
    };
    let text = String::from_utf8(resp.to_bytes()).unwrap();
    assert_eq!(
        text,
        "{\"public_key\":[],\"t_b_hash\":[],\"jwt1\":\"a\",\"jwt2\":\"b\"}"
    );
}

#[test]
fn l8_request_round_trips_with_headers() {
    let mut headers = HeaderList::new();
    headers.push(b"content-type".to_vec(), HeaderVal::Text(b"text/plain".to_vec()));
    headers.push(b"x-count".to_vec(), HeaderVal::Other(b"42".to_vec()));
    headers.push(b"x-quoted".to_vec(), HeaderVal::Text(b"say \"hi\" \\ there".to_vec()));
    let req = L8RequestObject {
        method: "POST".to_string(),
        uri: "/v1/items?q=1".to_string(),
        headers,
        body: vec![0, 1, 2, 254],
    };
    let bytes = req.to_bytes();
    let back = L8RequestObject::from_bytes(&bytes).expect("canonical request must parse");
    assert_eq!(back.method, "POST");
    assert_eq!(back.uri, "/v1/items?q=1");
    assert_eq!(back.body, vec![0, 1, 2, 254]);
    assert_eq!(back.headers.entries.len(), 3);
    match &back.headers.entries[1].1 {
        HeaderVal::Other(t) => assert_eq!(t, &b"42".to_vec()),
        _ => panic!("x-count must stay a raw token"),
    }
    match &back.headers.entries[2].1 {
        HeaderVal::Text(t) => assert_eq!(t, &b"say \"hi\" \\ there".to_vec()),
        _ => panic!("x-quoted must stay a string"),
    }
}

#[test]
fn l8_request_parses_serde_output() {
    // what serde_json emits for the same struct shape parses back
    let mut obj = serde_json::Map::new();
    obj.insert("method".to_string(), serde_json::Value::String("GET".into()));
    obj.insert("uri".to_string(), serde_json::Value::String("/x".into()));
    obj.insert("headers".to_string(), {
        let mut h = serde_json::Map::new();
        h.insert("a".to_string(), serde_json::Value::String("b".into()));
        serde_json::Value::Object(h)
    });
    obj.insert(
        "body".to_string(),
        serde_json::Value::Array(vec![serde_json::Value::from(7u8)]),
    );
    // field order matters on the wire: build the text in declaration order
    let text = format!(
        "{{\"method\":{},\"uri\":{},\"headers\":{},\"body\":{}}}",
        obj["method"], obj["uri"], obj["headers"], obj["body"]
    );
    let back = L8RequestObject::from_bytes(text.as_bytes()).expect("must parse");
    assert_eq!(back.method, "GET");
    assert_eq!(back.headers.entries.len(), 1);
}

#[test]
fn l8_response_serializes_all_fields() {
    let resp = L8ResponseObject {
        status: 201,
        status_text: "Created".to_string(),
        headers: HeaderList::new(),
        body: vec![1],
        ok: true,
        url: "http://b/x".to_string(),
        redirected: false,
    };
    let text = String::from_utf8(resp.to_bytes()).unwrap();
    assert_eq!(
        text,
        "{\"status\":201,\"status_text\":\"Created\",\"headers\":{},\"body\":[1],\"ok\":true,\"url\":\"http://b/x\",\"redirected\":false}"
    );
}

#[test]
fn error_response_body_shape() {
    let e = ErrorResponse { error: "Missing int_fp_jwt header".to_string() };
    assert_eq!(
        String::from_utf8(e.to_bytes()).unwrap(),
        "{\"error\":\"Missing int_fp_jwt header\"}"
    );
}

#[test]
fn auth_server_response_parses() {
    let body = b"{\"x509_certificate\":\"-----BEGIN-----\"}";
    let parsed = AuthServerResponse::from_bytes(body).expect("must parse");
    assert_eq!(parsed.x509_certificate, "-----BEGIN-----");
}

#[test]
fn header_value_utf8_round_trips() {
    let v = b"plain ascii value".to_vec();
    let j = header_value_to_json(&v);
    let back = json_to_header_value(&j);
    assert_eq!(back, v);
}

#[test]
fn header_value_non_utf8_uses_base64() {
    let v = vec![0xff, 0xfe, 0x41];
    let j = header_value_to_json(&v);
    match &j {
        HeaderVal::Text(t) => {
            let expected =
                base64::Engine::encode(&base64::engine::general_purpose::STANDARD, &v);
            assert_eq!(t, &expected.as_bytes().to_vec());
        },
        _ => panic!("fallback must be a string"),
    }
}

#[test]
fn header_value_illegal_bytes_become_empty() {
    let j = HeaderVal::Text(vec![b'a', 0x01, b'b']);
    assert_eq!(json_to_header_value(&j), Vec::<u8>::new());
}

#[test]
fn hex_round_trips() {
    let bytes = vec![0x0a, 0xff, 0x00, 0x7f];
    let text = hex_encode(&bytes);
    assert_eq!(text, "0aff007f");
    assert_eq!(hex_decode(&text).expect("valid hex"), bytes);
    assert!(hex_decode("0g").is_none());
    assert!(hex_decode("abc").is_none());
}

#[test]
fn decimal_rendering_is_exact() {
    assert_eq!(u64_to_string(0), "0");
    assert_eq!(u64_to_string(65535), "65535");
    assert_eq!(u64_to_string(u64::MAX), "18446744073709551615");
}

#[test]
fn string_to_array32_requires_exact_length() {
    let ok = string_to_array32("abcdefghijklmnopqrstuvwxyz012345".to_string());
    assert_eq!(ok.unwrap()[0], b'a');
    assert!(string_to_array32("short".to_string()).is_none());
}

#[test]
fn bytes_to_string_decodes_utf8() {
    assert_eq!(bytes_to_string(&b"caf\xc3\xa9".to_vec()), "caf\u{e9}");
}

#[test]
fn small_helpers_behave() {
    assert!(is_zero(&0));
    assert!(!is_zero(&3));
    assert_eq!(get_secret_key(), "secret");
}

#[test]
fn strings_with_control_escapes_round_trip() {
    let mut out = Vec::new();
    layer8_proxy::json::emit_text(&mut out, b"line one\nline two\ttabbed\r");
    assert_eq!(out, b"\"line one\\nline two\\ttabbed\\r\"".to_vec());
    let (back, used) = layer8_proxy::json::parse_text(&out, 0).expect("escapes parse");
    assert_eq!(back, b"line one\nline two\ttabbed\r".to_vec());
    assert_eq!(used, out.len());
}

#[test]
fn booleans_parse_back() {
    assert_eq!(layer8_proxy::json::parse_bool(b"true,", 0), Some((true, 4)));
    assert_eq!(layer8_proxy::json::parse_bool(b"false}", 0), Some((false, 5)));
    assert_eq!(layer8_proxy::json::parse_bool(b"null", 0), None);
}

#[test]
fn claims_document_round_trips() {
    let mut claims = layer8_proxy::jwt::JWTClaims::new(Some(3));
    claims.iss = Some("https://auth.example".to_string());
    claims.jti = Some("11111111-2222-4333-8444-555555555555".to_string());
    claims.ntor_session_id = Some("a-session-id".to_string());
    claims.rp_host = Some("https://rp.example:8443/".to_string());
    let bytes = claims.to_json_bytes();
    let back = layer8_proxy::jwt::JWTClaims::from_json_bytes(&bytes).expect("canonical claims parse");
    assert_eq!(back.iss, claims.iss);
    assert_eq!(back.jti, claims.jti);
    assert_eq!(back.ntor_session_id, claims.ntor_session_id);
    assert_eq!(back.rp_host, claims.rp_host);
    assert_eq!(back.exp, claims.exp);
    assert_eq!(back.iat, claims.iat);
    assert_eq!(back.nbf, 0);
    assert_eq!(back.aud, None);
    // the wire form carries the custom claims under their wire names
    let parsed: serde_json::Value = serde_json::from_slice(&bytes).unwrap();
    assert_eq!(parsed["sid"].as_str().unwrap(), "a-session-id");
    assert_eq!(parsed["upstream"].as_str().unwrap(), "https://rp.example:8443/");
}

#[test]
fn container_header_values_round_trip() {
    // a header value that is a whole JSON object or array survives the wire
    let mut headers = HeaderList::new();
    headers.push(
        b"x-meta".to_vec(),
        HeaderVal::Other(b"{\"a\":1,\"b\":[true,\"x}]\"]}".to_vec()),
    );
    headers.push(b"x-list".to_vec(), HeaderVal::Other(b"[1,2,3]".to_vec()));
    let req = L8RequestObject {
        method: "GET".to_string(),
        uri: "/m".to_string(),
        headers,
        body: vec![],
    };
    let bytes = req.to_bytes();
    let back = L8RequestObject::from_bytes(&bytes).expect("containers parse back");
    match &back.headers.entries[0].1 {
        HeaderVal::Other(t) => {
            assert_eq!(t, &b"{\"a\":1,\"b\":[true,\"x}]\"]}".to_vec());
        },
        _ => panic!("the object must stay raw token text"),
    }
    match &back.headers.entries[1].1 {
        HeaderVal::Other(t) => assert_eq!(t, &b"[1,2,3]".to_vec()),
        _ => panic!("the array must stay raw token text"),
    }
    // rebuilding the HTTP header yields the stringified value
    assert_eq!(
        json_to_header_value(&back.headers.entries[1].1),
        b"[1,2,3]".to_vec()
    );
}

#[test]
fn serde_written_container_header_parses() {
    // what serde_json emits for a nested header value parses back
    let mut h = serde_json::Map::new();
    let mut inner = serde_json::Map::new();
    inner.insert("a".to_string(), serde_json::Value::from(1u8));
    h.insert("x-meta".to_string(), serde_json::Value::Object(inner));
    let text = format!(
        "{{\"method\":\"GET\",\"uri\":\"/x\",\"headers\":{},\"body\":[]}}",
        serde_json::Value::Object(h)
    );
    let back = L8RequestObject::from_bytes(text.as_bytes()).expect("must parse");
    match &back.headers.entries[0].1 {
        HeaderVal::Other(t) => assert_eq!(t, &b"{\"a\":1}".to_vec()),
        _ => panic!("nested object arrives as raw token text"),
    }
}

#[test]
fn unbalanced_container_header_is_refused() {
    let body = b"{\"method\":\"GET\",\"uri\":\"/x\",\"headers\":{\"m\":{\"a\":1},\"body\":[]}";
    assert!(L8RequestObject::from_bytes(body).is_none());
}
