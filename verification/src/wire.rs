//! The message shapes that cross the wire, with their canonical JSON codec.
//!
//! Each shape has a serialization specification, executable `to_bytes` /
//! `from_bytes` functions proved against it, and — for the shapes that travel
//! in both directions — a round-trip law.

use vstd::prelude::*;
use crate::json::RBRACE;
use crate::json::ser_key;
use crate::json::ser_byte_arr;
use crate::json::ser_string;
use crate::json::ser_bool;
use crate::json::wf_string;
use crate::json::p_exact;
use crate::json::p_byte_arr;
use crate::json::p_string;
use crate::json::lemma_p_exact;
use crate::json::lemma_p_byte_arr_inv;
use crate::json::lemma_p_string_inv;
use crate::json::emit_key;
use crate::json::emit_byte_arr;
use crate::json::emit_string;
use crate::json::emit_u64;
use crate::json::emit_bool;
use crate::json::parse_key;
use crate::json::parse_byte_arr;
use crate::json::parse_string;
use crate::json::dec_rep;
use crate::keys::k_nonce;
use crate::keys::key_nonce;
use crate::keys::k_data;
use crate::keys::key_data;
use crate::keys::k_public_key;
use crate::keys::key_public_key;
use crate::keys::k_t_b_hash;
use crate::keys::key_t_b_hash;
use crate::keys::k_jwt1;
use crate::keys::key_jwt1;
use crate::keys::k_jwt2;
use crate::keys::key_jwt2;
use crate::keys::k_server_id;
use crate::keys::key_server_id;
use crate::keys::k_ephemeral_public_key;
use crate::keys::key_ephemeral_public_key;
use crate::keys::k_error;
use crate::keys::key_error;
use crate::keys::k_fp_healthcheck_success;
use crate::keys::key_fp_healthcheck_success;
use crate::keys::k_fp_healthcheck_error;
use crate::keys::key_fp_healthcheck_error;
use crate::keys::k_rp_healthcheck_success;
use crate::keys::key_rp_healthcheck_success;
use crate::keys::k_rp_healthcheck_error;
use crate::keys::key_rp_healthcheck_error;
use crate::keys::k_x509_certificate;
use crate::keys::key_x509_certificate;
use crate::keys::k_method;
use crate::keys::key_method;
use crate::keys::k_uri;
use crate::keys::key_uri;
use crate::keys::k_headers;
use crate::keys::key_headers;
use crate::keys::k_body;
use crate::keys::key_body;
use crate::keys::k_status;
use crate::keys::key_status;
use crate::keys::k_status_text;
use crate::keys::key_status_text;
use crate::keys::k_ok;
use crate::keys::key_ok;
use crate::keys::k_url;
use crate::keys::key_url;
use crate::keys::k_redirected;
use crate::keys::key_redirected;
use crate::headers::HeaderList;
use crate::headers::ser_hdrs;
use crate::headers::p_hdrs;
use crate::headers::wf_hdrs;
use crate::headers::lemma_p_hdrs_inv;
use crate::headers::emit_hdrs;
use crate::headers::parse_hdrs;

verus! {

// ---------------------------------------------------------------------------
// The encrypted envelope: the sole body of `/proxy` in both directions
// between the interceptor and the reverse proxy.
// ---------------------------------------------------------------------------

pub struct EncryptedMessage {
    pub nonce: Vec<u8>,
    pub data: Vec<u8>,
}

pub open spec fn ser_envelope(nonce: Seq<u8>, data: Seq<u8>) -> Seq<u8> {
    ser_key(k_nonce(), true) + ser_byte_arr(nonce) + ser_key(k_data(), false) + ser_byte_arr(data)
        + seq![RBRACE]
}

pub open spec fn p_envelope(s: Seq<u8>) -> Option<(Seq<u8>, Seq<u8>)> {
    match p_exact(s, ser_key(k_nonce(), true)) {
        None => None,
        Some(r1) => match p_byte_arr(r1) {
            None => None,
            Some(p1) => match p_exact(p1.1, ser_key(k_data(), false)) {
                None => None,
                Some(r2) => match p_byte_arr(r2) {
                    None => None,
                    Some(p2) => match p_exact(p2.1, seq![RBRACE]) {
                        None => None,
                        Some(r3) => if r3.len() == 0 {
                            Some((p1.0, p2.0))
                        } else {
                            None
                        },
                    },
                },
            },
        },
    }
}

impl EncryptedMessage {
    pub fn to_bytes(&self) -> (r: Vec<u8>)
        ensures
            r@ == ser_envelope(self.nonce@, self.data@),
    {
        let mut out: Vec<u8> = Vec::new();
        let k1 = key_nonce();
        emit_key(&mut out, k1.as_slice(), true);
        emit_byte_arr(&mut out, self.nonce.as_slice());
        let k2 = key_data();
        emit_key(&mut out, k2.as_slice(), false);
        emit_byte_arr(&mut out, self.data.as_slice());
        out.push(RBRACE);
        proof {
            assert(out@ =~= ser_envelope(self.nonce@, self.data@));
        }
        out
    }

    pub fn from_bytes(input: &[u8]) -> (r: Option<EncryptedMessage>)
        ensures
            match r {
                Some(m) => p_envelope(input@) == Some((m.nonce@, m.data@)),
                None => p_envelope(input@) is None,
            },
    {
        proof {
            assert(input@.skip(0) =~= input@);
        }
        let kn = key_nonce();
        let j0 = match parse_key(input, 0, kn.as_slice(), true) {
            Some(j) => j,
            None => {
                return None;
            },
        };
        let (nonce, j1) = match parse_byte_arr(input, j0) {
            Some(p) => p,
            None => {
                return None;
            },
        };
        let kd = key_data();
        let j2 = match parse_key(input, j1, kd.as_slice(), false) {
            Some(j) => j,
            None => {
                return None;
            },
        };
        let (data, j3) = match parse_byte_arr(input, j2) {
            Some(p) => p,
            None => {
                return None;
            },
        };
        let rb: Vec<u8> = vec![RBRACE];
        proof {
            assert(rb@ =~= seq![RBRACE]);
        }
        let j4 = match crate::json::parse_exact(input, j3, rb.as_slice()) {
            Some(j) => j,
            None => {
                return None;
            },
        };
        if j4 == input.len() {
            Some(EncryptedMessage { nonce, data })
        } else {
            None
        }
    }
}

/// Round trip of the envelope: parsing the canonical serialization gives the
/// nonce and ciphertext back.
pub proof fn lemma_envelope_round_trip(nonce: Seq<u8>, data: Seq<u8>)
    ensures
        p_envelope(ser_envelope(nonce, data)) == Some((nonce, data)),
{
    let whole = ser_envelope(nonce, data);
    let t1 = ser_byte_arr(nonce) + ser_key(k_data(), false) + ser_byte_arr(data) + seq![RBRACE];
    assert(whole =~= ser_key(k_nonce(), true) + t1);
    lemma_p_exact(ser_key(k_nonce(), true), t1);
    let t2 = ser_key(k_data(), false) + ser_byte_arr(data) + seq![RBRACE];
    assert(t1 =~= ser_byte_arr(nonce) + t2);
    lemma_p_byte_arr_inv(nonce, t2);
    let t3 = ser_byte_arr(data) + seq![RBRACE];
    assert(t2 =~= ser_key(k_data(), false) + t3);
    lemma_p_exact(ser_key(k_data(), false), t3);
    let t4 = seq![RBRACE];
    assert(t3 =~= ser_byte_arr(data) + t4);
    lemma_p_byte_arr_inv(data, t4);
    lemma_p_exact(seq![RBRACE], Seq::empty());
    assert(seq![RBRACE] + Seq::<u8>::empty() =~= seq![RBRACE]);
}

// ---------------------------------------------------------------------------
// `/init-tunnel` request body: the client's ephemeral public key.
// ---------------------------------------------------------------------------

pub open spec fn ser_init_tunnel_req(pk: Seq<u8>) -> Seq<u8> {
    ser_key(k_public_key(), true) + ser_byte_arr(pk) + seq![RBRACE]
}

pub open spec fn p_init_tunnel_req(s: Seq<u8>) -> Option<Seq<u8>> {
    match p_exact(s, ser_key(k_public_key(), true)) {
        None => None,
        Some(r1) => match p_byte_arr(r1) {
            None => None,
            Some(p1) => match p_exact(p1.1, seq![RBRACE]) {
                None => None,
                Some(r2) => if r2.len() == 0 {
                    Some(p1.0)
                } else {
                    None
                },
            },
        },
    }
}

fn init_req_to_bytes(pk: &Vec<u8>) -> (r: Vec<u8>)
    ensures
        r@ == ser_init_tunnel_req(pk@),
{
    let mut out: Vec<u8> = Vec::new();
    let k = key_public_key();
    emit_key(&mut out, k.as_slice(), true);
    emit_byte_arr(&mut out, pk.as_slice());
    out.push(RBRACE);
    proof {
        assert(out@ =~= ser_init_tunnel_req(pk@));
    }
    out
}

fn init_req_from_bytes(input: &[u8]) -> (r: Option<Vec<u8>>)
    ensures
        match r {
            Some(pk) => p_init_tunnel_req(input@) == Some(pk@),
            None => p_init_tunnel_req(input@) is None,
        },
{
    proof {
        assert(input@.skip(0) =~= input@);
    }
    let kp = key_public_key();
    let j0 = match parse_key(input, 0, kp.as_slice(), true) {
        Some(j) => j,
        None => {
            return None;
        },
    };
    let (pk, j1) = match parse_byte_arr(input, j0) {
        Some(p) => p,
        None => {
            return None;
        },
    };
    let rb: Vec<u8> = vec![RBRACE];
    proof {
        assert(rb@ =~= seq![RBRACE]);
    }
    let j2 = match crate::json::parse_exact(input, j1, rb.as_slice()) {
        Some(j) => j,
        None => {
            return None;
        },
    };
    if j2 == input.len() {
        Some(pk)
    } else {
        None
    }
}

/// The tunnel-init request as the forward proxy sees it.
pub struct InitTunnelRequest {
    pub public_key: Vec<u8>,
}

impl InitTunnelRequest {
    pub fn to_bytes(&self) -> (r: Vec<u8>)
        ensures
            r@ == ser_init_tunnel_req(self.public_key@),
    {
        init_req_to_bytes(&self.public_key)
    }

    pub fn from_bytes(input: &[u8]) -> (r: Option<InitTunnelRequest>)
        ensures
            match r {
                Some(m) => p_init_tunnel_req(input@) == Some(m.public_key@),
                None => p_init_tunnel_req(input@) is None,
            },
    {
        match init_req_from_bytes(input) {
            Some(pk) => Some(InitTunnelRequest { public_key: pk }),
            None => None,
        }
    }
}

/// The tunnel-init request as the reverse proxy sees it.
pub struct InitEncryptedTunnelRequest {
    pub public_key: Vec<u8>,
}

impl InitEncryptedTunnelRequest {
    pub fn to_bytes(&self) -> (r: Vec<u8>)
        ensures
            r@ == ser_init_tunnel_req(self.public_key@),
    {
        init_req_to_bytes(&self.public_key)
    }

    pub fn from_bytes(input: &[u8]) -> (r: Option<InitEncryptedTunnelRequest>)
        ensures
            match r {
                Some(m) => p_init_tunnel_req(input@) == Some(m.public_key@),
                None => p_init_tunnel_req(input@) is None,
            },
    {
        match init_req_from_bytes(input) {
            Some(pk) => Some(InitEncryptedTunnelRequest { public_key: pk }),
            None => None,
        }
    }
}

pub proof fn lemma_init_tunnel_req_round_trip(pk: Seq<u8>)
    ensures
        p_init_tunnel_req(ser_init_tunnel_req(pk)) == Some(pk),
{
    let t1 = ser_byte_arr(pk) + seq![RBRACE];
    assert(ser_init_tunnel_req(pk) =~= ser_key(k_public_key(), true) + t1);
    lemma_p_exact(ser_key(k_public_key(), true), t1);
    lemma_p_byte_arr_inv(pk, seq![RBRACE]);
    lemma_p_exact(seq![RBRACE], Seq::empty());
    assert(seq![RBRACE] + Seq::<u8>::empty() =~= seq![RBRACE]);
}

// ---------------------------------------------------------------------------
// `/init-tunnel` response between the two proxies: the server's ephemeral
// key, the transcript hash, and the two bearer tokens.
// ---------------------------------------------------------------------------

pub open spec fn ser_init_tunnel_resp(
    pk: Seq<u8>,
    tb: Seq<u8>,
    jwt1: Seq<char>,
    jwt2: Seq<char>,
) -> Seq<u8> {
    ser_key(k_public_key(), true) + ser_byte_arr(pk) + ser_key(k_t_b_hash(), false) + ser_byte_arr(
        tb,
    ) + ser_key(k_jwt1(), false) + ser_string(jwt1) + ser_key(k_jwt2(), false) + ser_string(jwt2)
        + seq![RBRACE]
}

pub open spec fn p_init_tunnel_resp(s: Seq<u8>) -> Option<
    (Seq<u8>, Seq<u8>, Seq<char>, Seq<char>),
> {
    match p_exact(s, ser_key(k_public_key(), true)) {
        None => None,
        Some(r1) => match p_byte_arr(r1) {
            None => None,
            Some(p1) => match p_exact(p1.1, ser_key(k_t_b_hash(), false)) {
                None => None,
                Some(r2) => match p_byte_arr(r2) {
                    None => None,
                    Some(p2) => match p_exact(p2.1, ser_key(k_jwt1(), false)) {
                        None => None,
                        Some(r3) => match p_string(r3) {
                            None => None,
                            Some(p3) => match p_exact(p3.1, ser_key(k_jwt2(), false)) {
                                None => None,
                                Some(r4) => match p_string(r4) {
                                    None => None,
                                    Some(p4) => match p_exact(p4.1, seq![RBRACE]) {
                                        None => None,
                                        Some(r5) => if r5.len() == 0 {
                                            Some((p1.0, p2.0, p3.0, p4.0))
                                        } else {
                                            None
                                        },
                                    },
                                },
                            },
                        },
                    },
                },
            },
        },
    }
}

fn init_resp_to_bytes(pk: &Vec<u8>, tb: &Vec<u8>, jwt1: &String, jwt2: &String) -> (r: Vec<u8>)
    ensures
        r@ == ser_init_tunnel_resp(pk@, tb@, jwt1@, jwt2@),
{
    let mut out: Vec<u8> = Vec::new();
    let k1 = key_public_key();
    emit_key(&mut out, k1.as_slice(), true);
    emit_byte_arr(&mut out, pk.as_slice());
    let k2 = key_t_b_hash();
    emit_key(&mut out, k2.as_slice(), false);
    emit_byte_arr(&mut out, tb.as_slice());
    let k3 = key_jwt1();
    emit_key(&mut out, k3.as_slice(), false);
    emit_string(&mut out, jwt1.as_str());
    let k4 = key_jwt2();
    emit_key(&mut out, k4.as_slice(), false);
    emit_string(&mut out, jwt2.as_str());
    out.push(RBRACE);
    proof {
        assert(out@ =~= ser_init_tunnel_resp(pk@, tb@, jwt1@, jwt2@));
    }
    out
}

fn init_resp_from_bytes(input: &[u8]) -> (r: Option<(Vec<u8>, Vec<u8>, String, String)>)
    ensures
        match r {
            Some(m) => p_init_tunnel_resp(input@) == Some((m.0@, m.1@, m.2@, m.3@)),
            None => p_init_tunnel_resp(input@) is None,
        },
{
    proof {
        assert(input@.skip(0) =~= input@);
    }
    let k1 = key_public_key();
    let j0 = match parse_key(input, 0, k1.as_slice(), true) {
        Some(j) => j,
        None => {
            return None;
        },
    };
    let (pk, j1) = match parse_byte_arr(input, j0) {
        Some(p) => p,
        None => {
            return None;
        },
    };
    let k2 = key_t_b_hash();
    let j2 = match parse_key(input, j1, k2.as_slice(), false) {
        Some(j) => j,
        None => {
            return None;
        },
    };
    let (tb, j3) = match parse_byte_arr(input, j2) {
        Some(p) => p,
        None => {
            return None;
        },
    };
    let k3 = key_jwt1();
    let j4 = match parse_key(input, j3, k3.as_slice(), false) {
        Some(j) => j,
        None => {
            return None;
        },
    };
    let (jwt1, j5) = match parse_string(input, j4) {
        Some(p) => p,
        None => {
            return None;
        },
    };
    let k4 = key_jwt2();
    let j6 = match parse_key(input, j5, k4.as_slice(), false) {
        Some(j) => j,
        None => {
            return None;
        },
    };
    let (jwt2, j7) = match parse_string(input, j6) {
        Some(p) => p,
        None => {
            return None;
        },
    };
    let rb: Vec<u8> = vec![RBRACE];
    proof {
        assert(rb@ =~= seq![RBRACE]);
    }
    let j8 = match crate::json::parse_exact(input, j7, rb.as_slice()) {
        Some(j) => j,
        None => {
            return None;
        },
    };
    if j8 == input.len() {
        Some((pk, tb, jwt1, jwt2))
    } else {
        None
    }
}

/// The tunnel-init response as the reverse proxy builds it.
pub struct InitEncryptedTunnelResponse {
    pub public_key: Vec<u8>,
    pub t_b_hash: Vec<u8>,
    pub int_rp_jwt: String,
    pub fp_rp_jwt: String,
}

impl InitEncryptedTunnelResponse {
    pub fn to_bytes(&self) -> (r: Vec<u8>)
        ensures
            r@ == ser_init_tunnel_resp(
                self.public_key@,
                self.t_b_hash@,
                self.int_rp_jwt@,
                self.fp_rp_jwt@,
            ),
    {
        init_resp_to_bytes(&self.public_key, &self.t_b_hash, &self.int_rp_jwt, &self.fp_rp_jwt)
    }
}

/// The same response as the forward proxy reads it.
pub struct InitTunnelResponseFromRP {
    pub public_key: Vec<u8>,
    pub t_b_hash: Vec<u8>,
    pub int_rp_jwt: String,
    pub fp_rp_jwt: String,
}

impl InitTunnelResponseFromRP {
    pub fn from_bytes(input: &[u8]) -> (r: Option<InitTunnelResponseFromRP>)
        ensures
            match r {
                Some(m) => p_init_tunnel_resp(input@) == Some(
                    (m.public_key@, m.t_b_hash@, m.int_rp_jwt@, m.fp_rp_jwt@),
                ),
                None => p_init_tunnel_resp(input@) is None,
            },
    {
        match init_resp_from_bytes(input) {
            Some((pk, tb, jwt1, jwt2)) => Some(
                InitTunnelResponseFromRP {
                    public_key: pk,
                    t_b_hash: tb,
                    int_rp_jwt: jwt1,
                    fp_rp_jwt: jwt2,
                },
            ),
            None => None,
        }
    }
}

/// Round trip of the tunnel-init response between the two proxies.
pub proof fn lemma_init_tunnel_resp_round_trip(
    pk: Seq<u8>,
    tb: Seq<u8>,
    jwt1: Seq<char>,
    jwt2: Seq<char>,
)
    requires
        wf_string(jwt1),
        wf_string(jwt2),
    ensures
        p_init_tunnel_resp(ser_init_tunnel_resp(pk, tb, jwt1, jwt2)) == Some((pk, tb, jwt1, jwt2)),
{
    let whole = ser_init_tunnel_resp(pk, tb, jwt1, jwt2);
    let t1 = ser_byte_arr(pk) + ser_key(k_t_b_hash(), false) + ser_byte_arr(tb) + ser_key(
        k_jwt1(),
        false,
    ) + ser_string(jwt1) + ser_key(k_jwt2(), false) + ser_string(jwt2) + seq![RBRACE];
    assert(whole =~= ser_key(k_public_key(), true) + t1);
    lemma_p_exact(ser_key(k_public_key(), true), t1);
    let t2 = ser_key(k_t_b_hash(), false) + ser_byte_arr(tb) + ser_key(k_jwt1(), false)
        + ser_string(jwt1) + ser_key(k_jwt2(), false) + ser_string(jwt2) + seq![RBRACE];
    assert(t1 =~= ser_byte_arr(pk) + t2);
    lemma_p_byte_arr_inv(pk, t2);
    let t3 = ser_byte_arr(tb) + ser_key(k_jwt1(), false) + ser_string(jwt1) + ser_key(
        k_jwt2(),
        false,
    ) + ser_string(jwt2) + seq![RBRACE];
    assert(t2 =~= ser_key(k_t_b_hash(), false) + t3);
    lemma_p_exact(ser_key(k_t_b_hash(), false), t3);
    let t4 = ser_key(k_jwt1(), false) + ser_string(jwt1) + ser_key(k_jwt2(), false) + ser_string(
        jwt2,
    ) + seq![RBRACE];
    assert(t3 =~= ser_byte_arr(tb) + t4);
    lemma_p_byte_arr_inv(tb, t4);
    let t5 = ser_string(jwt1) + ser_key(k_jwt2(), false) + ser_string(jwt2) + seq![RBRACE];
    assert(t4 =~= ser_key(k_jwt1(), false) + t5);
    lemma_p_exact(ser_key(k_jwt1(), false), t5);
    let t6 = ser_key(k_jwt2(), false) + ser_string(jwt2) + seq![RBRACE];
    assert(t5 =~= ser_string(jwt1) + t6);
    lemma_p_string_inv(jwt1, t6);
    let t7 = ser_string(jwt2) + seq![RBRACE];
    assert(t6 =~= ser_key(k_jwt2(), false) + t7);
    lemma_p_exact(ser_key(k_jwt2(), false), t7);
    let t8 = seq![RBRACE];
    assert(t7 =~= ser_string(jwt2) + t8);
    lemma_p_string_inv(jwt2, t8);
    lemma_p_exact(seq![RBRACE], Seq::empty());
    assert(seq![RBRACE] + Seq::<u8>::empty() =~= seq![RBRACE]);
}

// ---------------------------------------------------------------------------
// The interceptor-facing `/init-tunnel` response minted by the forward proxy.
// ---------------------------------------------------------------------------

pub open spec fn ser_init_resp_int(
    epk: Seq<u8>,
    tb: Seq<u8>,
    int_rp_jwt: Seq<char>,
    int_fp_jwt: Seq<char>,
    static_pk: Seq<u8>,
    server_id: Seq<char>,
) -> Seq<u8> {
    ser_key(k_ephemeral_public_key(), true) + ser_byte_arr(epk) + ser_key(k_t_b_hash(), false)
        + ser_byte_arr(tb) + ser_key(k_jwt1(), false) + ser_string(int_rp_jwt) + ser_key(
        k_jwt2(),
        false,
    ) + ser_string(int_fp_jwt) + ser_key(k_public_key(), false) + ser_byte_arr(static_pk)
        + ser_key(k_server_id(), false) + ser_string(server_id) + seq![RBRACE]
}

/// The response handed back to the interceptor after a tunnel is bound.
pub struct InitTunnelResponseToINT {
    pub ephemeral_public_key: Vec<u8>,
    pub t_b_hash: Vec<u8>,
    pub int_rp_jwt: String,
    pub int_fp_jwt: String,
    pub ntor_static_public_key: Vec<u8>,
    pub ntor_server_id: String,
}

impl InitTunnelResponseToINT {
    pub fn to_bytes(&self) -> (r: Vec<u8>)
        ensures
            r@ == ser_init_resp_int(
                self.ephemeral_public_key@,
                self.t_b_hash@,
                self.int_rp_jwt@,
                self.int_fp_jwt@,
                self.ntor_static_public_key@,
                self.ntor_server_id@,
            ),
    {
        let mut out: Vec<u8> = Vec::new();
        let k1 = key_ephemeral_public_key();
        emit_key(&mut out, k1.as_slice(), true);
        emit_byte_arr(&mut out, self.ephemeral_public_key.as_slice());
        let k2 = key_t_b_hash();
        emit_key(&mut out, k2.as_slice(), false);
        emit_byte_arr(&mut out, self.t_b_hash.as_slice());
        let k3 = key_jwt1();
        emit_key(&mut out, k3.as_slice(), false);
        emit_string(&mut out, self.int_rp_jwt.as_str());
        let k4 = key_jwt2();
        emit_key(&mut out, k4.as_slice(), false);
        emit_string(&mut out, self.int_fp_jwt.as_str());
        let k5 = key_public_key();
        emit_key(&mut out, k5.as_slice(), false);
        emit_byte_arr(&mut out, self.ntor_static_public_key.as_slice());
        let k6 = key_server_id();
        emit_key(&mut out, k6.as_slice(), false);
        emit_string(&mut out, self.ntor_server_id.as_str());
        out.push(RBRACE);
        proof {
            assert(out@ =~= ser_init_resp_int(
                self.ephemeral_public_key@,
                self.t_b_hash@,
                self.int_rp_jwt@,
                self.int_fp_jwt@,
                self.ntor_static_public_key@,
                self.ntor_server_id@,
            ));
        }
        out
    }
}

// ---------------------------------------------------------------------------
// Single-string bodies: errors and healthcheck answers.
// ---------------------------------------------------------------------------

pub open spec fn ser_str_obj(key: Seq<u8>, v: Seq<char>) -> Seq<u8> {
    ser_key(key, true) + ser_string(v) + seq![RBRACE]
}

pub fn str_obj_to_bytes(key: &Vec<u8>, v: &String) -> (r: Vec<u8>)
    ensures
        r@ == ser_str_obj(key@, v@),
{
    let mut out: Vec<u8> = Vec::new();
    emit_key(&mut out, key.as_slice(), true);
    emit_string(&mut out, v.as_str());
    out.push(RBRACE);
    proof {
        assert(out@ =~= ser_str_obj(key@, v@));
    }
    out
}

pub open spec fn ser_str_obj2(key1: Seq<u8>, v1: Seq<char>, key2: Seq<u8>, v2: Seq<char>) -> Seq<
    u8,
> {
    ser_key(key1, true) + ser_string(v1) + ser_key(key2, false) + ser_string(v2) + seq![RBRACE]
}

pub fn str_obj2_to_bytes(key1: &Vec<u8>, v1: &String, key2: &Vec<u8>, v2: &String) -> (r: Vec<u8>)
    ensures
        r@ == ser_str_obj2(key1@, v1@, key2@, v2@),
{
    let mut out: Vec<u8> = Vec::new();
    emit_key(&mut out, key1.as_slice(), true);
    emit_string(&mut out, v1.as_str());
    emit_key(&mut out, key2.as_slice(), false);
    emit_string(&mut out, v2.as_str());
    out.push(RBRACE);
    proof {
        assert(out@ =~= ser_str_obj2(key1@, v1@, key2@, v2@));
    }
    out
}

/// The `{error}` body returned on every rejected request.
pub struct ErrorResponse {
    pub error: String,
}

impl ErrorResponse {
    pub fn to_bytes(&self) -> (r: Vec<u8>)
        ensures
            r@ == ser_str_obj(k_error(), self.error@),
    {
        let k = key_error();
        str_obj_to_bytes(&k, &self.error)
    }
}

pub struct FpHealthcheckSuccess {
    pub fp_healthcheck_success: String,
}

impl FpHealthcheckSuccess {
    pub fn to_bytes(&self) -> (r: Vec<u8>)
        ensures
            r@ == ser_str_obj(k_fp_healthcheck_success(), self.fp_healthcheck_success@),
    {
        let k = key_fp_healthcheck_success();
        str_obj_to_bytes(&k, &self.fp_healthcheck_success)
    }
}

pub struct FpHealthcheckError {
    pub fp_healthcheck_error: String,
}

impl FpHealthcheckError {
    pub fn to_bytes(&self) -> (r: Vec<u8>)
        ensures
            r@ == ser_str_obj(k_fp_healthcheck_error(), self.fp_healthcheck_error@),
    {
        let k = key_fp_healthcheck_error();
        str_obj_to_bytes(&k, &self.fp_healthcheck_error)
    }
}

pub struct RpHealthcheckSuccess {
    pub rp_healthcheck_success: String,
}

impl RpHealthcheckSuccess {
    pub fn to_bytes(&self) -> (r: Vec<u8>)
        ensures
            r@ == ser_str_obj(k_rp_healthcheck_success(), self.rp_healthcheck_success@),
    {
        let k = key_rp_healthcheck_success();
        str_obj_to_bytes(&k, &self.rp_healthcheck_success)
    }
}

pub struct RpHealthcheckError {
    pub rp_healthcheck_error: String,
}

impl RpHealthcheckError {
    pub fn to_bytes(&self) -> (r: Vec<u8>)
        ensures
            r@ == ser_str_obj(k_rp_healthcheck_error(), self.rp_healthcheck_error@),
    {
        let k = key_rp_healthcheck_error();
        str_obj_to_bytes(&k, &self.rp_healthcheck_error)
    }
}

// ---------------------------------------------------------------------------
// The authentication server's certificate-lookup response.
// ---------------------------------------------------------------------------

pub open spec fn p_auth_resp(s: Seq<u8>) -> Option<Seq<char>> {
    match p_exact(s, ser_key(k_x509_certificate(), true)) {
        None => None,
        Some(r1) => match p_string(r1) {
            None => None,
            Some(p1) => match p_exact(p1.1, seq![RBRACE]) {
                None => None,
                Some(r2) => if r2.len() == 0 {
                    Some(p1.0)
                } else {
                    None
                },
            },
        },
    }
}

/// The body the authentication server answers with: one PEM certificate.
pub struct AuthServerResponse {
    pub x509_certificate: String,
}

impl AuthServerResponse {
    pub fn from_bytes(input: &[u8]) -> (r: Option<AuthServerResponse>)
        ensures
            match r {
                Some(m) => p_auth_resp(input@) == Some(m.x509_certificate@),
                None => p_auth_resp(input@) is None,
            },
    {
        proof {
            assert(input@.skip(0) =~= input@);
        }
        let k = key_x509_certificate();
        let j0 = match parse_key(input, 0, k.as_slice(), true) {
            Some(j) => j,
            None => {
                return None;
            },
        };
        let (pem, j1) = match parse_string(input, j0) {
            Some(p) => p,
            None => {
                return None;
            },
        };
        let rb: Vec<u8> = vec![RBRACE];
        proof {
            assert(rb@ =~= seq![RBRACE]);
        }
        let j2 = match crate::json::parse_exact(input, j1, rb.as_slice()) {
            Some(j) => j,
            None => {
                return None;
            },
        };
        if j2 == input.len() {
            Some(AuthServerResponse { x509_certificate: pem })
        } else {
            None
        }
    }

    pub fn to_bytes(&self) -> (r: Vec<u8>)
        ensures
            r@ == ser_str_obj(k_x509_certificate(), self.x509_certificate@),
    {
        let k = key_x509_certificate();
        str_obj_to_bytes(&k, &self.x509_certificate)
    }
}


// ---------------------------------------------------------------------------
// The wrapped HTTP objects that travel as plaintext inside the envelope.
// ---------------------------------------------------------------------------

pub open spec fn ser_l8_request(
    method: Seq<char>,
    uri: Seq<char>,
    headers: Seq<(Seq<u8>, (bool, Seq<u8>))>,
    body: Seq<u8>,
) -> Seq<u8> {
    ser_key(k_method(), true) + ser_string(method) + ser_key(k_uri(), false) + ser_string(uri)
        + ser_key(k_headers(), false) + ser_hdrs(headers) + ser_key(k_body(), false)
        + ser_byte_arr(body) + seq![RBRACE]
}

pub open spec fn p_l8_request(s: Seq<u8>) -> Option<
    (Seq<char>, Seq<char>, Seq<(Seq<u8>, (bool, Seq<u8>))>, Seq<u8>),
> {
    match p_exact(s, ser_key(k_method(), true)) {
        None => None,
        Some(r1) => match p_string(r1) {
            None => None,
            Some(p1) => match p_exact(p1.1, ser_key(k_uri(), false)) {
                None => None,
                Some(r2) => match p_string(r2) {
                    None => None,
                    Some(p2) => match p_exact(p2.1, ser_key(k_headers(), false)) {
                        None => None,
                        Some(r3) => match p_hdrs(r3) {
                            None => None,
                            Some(p3) => match p_exact(p3.1, ser_key(k_body(), false)) {
                                None => None,
                                Some(r4) => match p_byte_arr(r4) {
                                    None => None,
                                    Some(p4) => match p_exact(p4.1, seq![RBRACE]) {
                                        None => None,
                                        Some(r5) => if r5.len() == 0 {
                                            Some((p1.0, p2.0, p3.0, p4.0))
                                        } else {
                                            None
                                        },
                                    },
                                },
                            },
                        },
                    },
                },
            },
        },
    }
}

/// A client HTTP request wrapped for transport inside the encrypted tunnel.
pub struct L8RequestObject {
    pub method: String,
    pub uri: String,
    pub headers: HeaderList,
    pub body: Vec<u8>,
}

impl L8RequestObject {
    /// Well-formed for the canonical wire form: the text fields carry no
    /// control characters and each header entry is serializable.
    pub open spec fn wf(&self) -> bool {
        wf_string(self.method@) && wf_string(self.uri@) && wf_hdrs(self.headers@)
    }

    pub fn to_bytes(&self) -> (r: Vec<u8>)
        ensures
            r@ == ser_l8_request(self.method@, self.uri@, self.headers@, self.body@),
    {
        let mut out: Vec<u8> = Vec::new();
        let k1 = key_method();
        emit_key(&mut out, k1.as_slice(), true);
        emit_string(&mut out, self.method.as_str());
        let k2 = key_uri();
        emit_key(&mut out, k2.as_slice(), false);
        emit_string(&mut out, self.uri.as_str());
        let k3 = key_headers();
        emit_key(&mut out, k3.as_slice(), false);
        emit_hdrs(&mut out, &self.headers);
        let k4 = key_body();
        emit_key(&mut out, k4.as_slice(), false);
        emit_byte_arr(&mut out, self.body.as_slice());
        out.push(RBRACE);
        proof {
            assert(out@ =~= ser_l8_request(self.method@, self.uri@, self.headers@, self.body@));
        }
        out
    }

    pub fn from_bytes(input: &[u8]) -> (r: Option<L8RequestObject>)
        ensures
            match r {
                Some(m) => p_l8_request(input@) == Some((m.method@, m.uri@, m.headers@, m.body@)),
                None => p_l8_request(input@) is None,
            },
    {
        proof {
            assert(input@.skip(0) =~= input@);
        }
        let k1 = key_method();
        let j0 = match parse_key(input, 0, k1.as_slice(), true) {
            Some(j) => j,
            None => {
                return None;
            },
        };
        let (method, j1) = match parse_string(input, j0) {
            Some(p) => p,
            None => {
                return None;
            },
        };
        let k2 = key_uri();
        let j2 = match parse_key(input, j1, k2.as_slice(), false) {
            Some(j) => j,
            None => {
                return None;
            },
        };
        let (uri, j3) = match parse_string(input, j2) {
            Some(p) => p,
            None => {
                return None;
            },
        };
        let k3 = key_headers();
        let j4 = match parse_key(input, j3, k3.as_slice(), false) {
            Some(j) => j,
            None => {
                return None;
            },
        };
        let (headers, j5) = match parse_hdrs(input, j4) {
            Some(p) => p,
            None => {
                return None;
            },
        };
        let k4 = key_body();
        let j6 = match parse_key(input, j5, k4.as_slice(), false) {
            Some(j) => j,
            None => {
                return None;
            },
        };
        let (body, j7) = match parse_byte_arr(input, j6) {
            Some(p) => p,
            None => {
                return None;
            },
        };
        let rb: Vec<u8> = vec![RBRACE];
        proof {
            assert(rb@ =~= seq![RBRACE]);
        }
        let j8 = match crate::json::parse_exact(input, j7, rb.as_slice()) {
            Some(j) => j,
            None => {
                return None;
            },
        };
        if j8 == input.len() {
            Some(L8RequestObject { method, uri, headers, body })
        } else {
            None
        }
    }
}

/// Round trip of the wrapped request: deserializing the canonical
/// serialization of any well-formed request yields the request itself.
#[verifier::rlimit(100)]
#[verifier::spinoff_prover]
pub proof fn lemma_l8_request_round_trip(
    method: Seq<char>,
    uri: Seq<char>,
    headers: Seq<(Seq<u8>, (bool, Seq<u8>))>,
    body: Seq<u8>,
)
    requires
        wf_string(method),
        wf_string(uri),
        wf_hdrs(headers),
    ensures
        p_l8_request(ser_l8_request(method, uri, headers, body)) == Some(
            (method, uri, headers, body),
        ),
{
    let whole = ser_l8_request(method, uri, headers, body);
    let t1 = ser_string(method) + ser_key(k_uri(), false) + ser_string(uri) + ser_key(
        k_headers(),
        false,
    ) + ser_hdrs(headers) + ser_key(k_body(), false) + ser_byte_arr(body) + seq![RBRACE];
    assert(whole =~= ser_key(k_method(), true) + t1);
    lemma_p_exact(ser_key(k_method(), true), t1);
    let t2 = ser_key(k_uri(), false) + ser_string(uri) + ser_key(k_headers(), false) + ser_hdrs(
        headers,
    ) + ser_key(k_body(), false) + ser_byte_arr(body) + seq![RBRACE];
    assert(t1 =~= ser_string(method) + t2);
    lemma_p_string_inv(method, t2);
    let t3 = ser_string(uri) + ser_key(k_headers(), false) + ser_hdrs(headers) + ser_key(
        k_body(),
        false,
    ) + ser_byte_arr(body) + seq![RBRACE];
    assert(t2 =~= ser_key(k_uri(), false) + t3);
    lemma_p_exact(ser_key(k_uri(), false), t3);
    let t4 = ser_key(k_headers(), false) + ser_hdrs(headers) + ser_key(k_body(), false)
        + ser_byte_arr(body) + seq![RBRACE];
    assert(t3 =~= ser_string(uri) + t4);
    lemma_p_string_inv(uri, t4);
    let t5 = ser_hdrs(headers) + ser_key(k_body(), false) + ser_byte_arr(body) + seq![RBRACE];
    assert(t4 =~= ser_key(k_headers(), false) + t5);
    lemma_p_exact(ser_key(k_headers(), false), t5);
    let t6 = ser_key(k_body(), false) + ser_byte_arr(body) + seq![RBRACE];
    assert(t5 =~= ser_hdrs(headers) + t6);
    lemma_p_hdrs_inv(headers, t6);
    let t7 = ser_byte_arr(body) + seq![RBRACE];
    assert(t6 =~= ser_key(k_body(), false) + t7);
    lemma_p_exact(ser_key(k_body(), false), t7);
    let t8 = seq![RBRACE];
    assert(t7 =~= ser_byte_arr(body) + t8);
    lemma_p_byte_arr_inv(body, t8);
    lemma_p_exact(seq![RBRACE], Seq::empty());
    assert(seq![RBRACE] + Seq::<u8>::empty() =~= seq![RBRACE]);
}

pub open spec fn ser_l8_response(
    status: u16,
    status_text: Seq<char>,
    headers: Seq<(Seq<u8>, (bool, Seq<u8>))>,
    body: Seq<u8>,
    ok: bool,
    url: Seq<char>,
    redirected: bool,
) -> Seq<u8> {
    ser_key(k_status(), true) + dec_rep(status as u64) + ser_key(k_status_text(), false)
        + ser_string(status_text) + ser_key(k_headers(), false) + ser_hdrs(headers) + ser_key(
        k_body(),
        false,
    ) + ser_byte_arr(body) + ser_key(k_ok(), false) + ser_bool(ok) + ser_key(k_url(), false)
        + ser_string(url) + ser_key(k_redirected(), false) + ser_bool(redirected) + seq![RBRACE]
}

/// A backend HTTP response wrapped for transport inside the encrypted tunnel.
pub struct L8ResponseObject {
    pub status: u16,
    pub status_text: String,
    pub headers: HeaderList,
    pub body: Vec<u8>,
    pub ok: bool,
    pub url: String,
    pub redirected: bool,
}

impl L8ResponseObject {
    pub fn to_bytes(&self) -> (r: Vec<u8>)
        ensures
            r@ == ser_l8_response(
                self.status,
                self.status_text@,
                self.headers@,
                self.body@,
                self.ok,
                self.url@,
                self.redirected,
            ),
    {
        let mut out: Vec<u8> = Vec::new();
        let k1 = key_status();
        emit_key(&mut out, k1.as_slice(), true);
        emit_u64(&mut out, self.status as u64);
        let k2 = key_status_text();
        emit_key(&mut out, k2.as_slice(), false);
        emit_string(&mut out, self.status_text.as_str());
        let k3 = key_headers();
        emit_key(&mut out, k3.as_slice(), false);
        emit_hdrs(&mut out, &self.headers);
        let k4 = key_body();
        emit_key(&mut out, k4.as_slice(), false);
        emit_byte_arr(&mut out, self.body.as_slice());
        let k5 = key_ok();
        emit_key(&mut out, k5.as_slice(), false);
        emit_bool(&mut out, self.ok);
        let k6 = key_url();
        emit_key(&mut out, k6.as_slice(), false);
        emit_string(&mut out, self.url.as_str());
        let k7 = key_redirected();
        emit_key(&mut out, k7.as_slice(), false);
        emit_bool(&mut out, self.redirected);
        out.push(RBRACE);
        proof {
            assert(out@ =~= ser_l8_response(
                self.status,
                self.status_text@,
                self.headers@,
                self.body@,
                self.ok,
                self.url@,
                self.redirected,
            ));
        }
        out
    }
}

} // verus!
