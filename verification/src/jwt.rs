//! JWT claims: the registered claims plus the two custom claims that bind
//! the tunnel together (`upstream`, the reverse proxy's base URL, and `sid`,
//! the key-exchange session id).
//!
//! Claims travel as a compact JSON object with keys in sorted order and
//! unset optional fields left out; numeric fields are left out when zero.
//! Tokens themselves are minted and checked by an outside library through
//! the crate's trusted boundary.

use vstd::prelude::*;
use vstd::utf8::valid_utf8;
use vstd::utf8::decode_utf8;
use vstd::utf8::encode_utf8;
use vstd::string::StrSliceExecFns;
use crate::json::dec_rep;
use crate::json::printable_chars;
use crate::json::ascii_seq;
use crate::json::lemma_printable_encode;
use crate::json::lemma_dec_rep_ascii;
use crate::headers::ascii_hdrs;
use crate::headers::lemma_ser_hdrs_ascii;
use crate::json::p_u64;
use crate::headers::HeaderList;
use crate::headers::HeaderVal;
use crate::headers::ser_hdrs;
use crate::headers::p_hdrs;
use crate::headers::emit_hdrs;
use crate::headers::parse_hdrs;
use crate::maps::bytes_eq;
use crate::trusted::string_from_utf8;
use crate::trusted::now_unix;
use crate::keys::k_aud;
use crate::keys::key_aud;
use crate::keys::k_exp;
use crate::keys::key_exp;
use crate::keys::k_iat;
use crate::keys::key_iat;
use crate::keys::k_iss;
use crate::keys::key_iss;
use crate::keys::k_jti;
use crate::keys::key_jti;
use crate::keys::k_nbf;
use crate::keys::key_nbf;
use crate::keys::k_sid;
use crate::keys::key_sid;
use crate::keys::k_sub;
use crate::keys::key_sub;
use crate::keys::k_upstream;
use crate::keys::key_upstream;

verus! {

/// The claims carried by every token this system issues.
pub struct JWTClaims {
    pub iss: Option<String>,
    pub sub: Option<String>,
    pub aud: Option<String>,
    pub exp: u64,
    pub nbf: u64,
    pub iat: u64,
    pub jti: Option<String>,
    /// Custom claim `upstream`: names the reverse proxy for the interceptor's
    /// forward-proxy token.
    pub rp_host: Option<String>,
    /// Custom claim `sid`: the key-exchange session id in the interceptor's
    /// reverse-proxy token.
    pub ntor_session_id: Option<String>,
}

pub open spec fn ostr(o: Option<String>) -> Option<Seq<char>> {
    match o {
        Some(s) => Some(s@),
        None => None,
    }
}

pub open spec fn opt_str_entry(key: Seq<u8>, o: Option<String>) -> Seq<
    (Seq<u8>, (bool, Seq<u8>)),
> {
    match o {
        Some(s) => seq![(key, (true, encode_utf8(s@)))],
        None => Seq::empty(),
    }
}

pub open spec fn num_entry(key: Seq<u8>, n: u64) -> Seq<(Seq<u8>, (bool, Seq<u8>))> {
    if n == 0 {
        Seq::empty()
    } else {
        seq![(key, (false, dec_rep(n)))]
    }
}

/// The claims document as a key-value list, keys in sorted order, unset
/// fields left out.
pub open spec fn claims_entries(c: JWTClaims) -> Seq<(Seq<u8>, (bool, Seq<u8>))> {
    opt_str_entry(k_aud(), c.aud) + (num_entry(k_exp(), c.exp) + (num_entry(k_iat(), c.iat)
        + (opt_str_entry(k_iss(), c.iss) + (opt_str_entry(k_jti(), c.jti) + (num_entry(
        k_nbf(),
        c.nbf,
    ) + (opt_str_entry(k_sid(), c.ntor_session_id) + (opt_str_entry(k_sub(), c.sub)
        + opt_str_entry(k_upstream(), c.rp_host))))))))
}

pub open spec fn ser_claims(c: JWTClaims) -> Seq<u8> {
    ser_hdrs(claims_entries(c))
}

// Reading fields back out of a parsed claims document.

pub open spec fn find_entry(entries: Seq<(Seq<u8>, (bool, Seq<u8>))>, key: Seq<u8>) -> Option<
    (bool, Seq<u8>),
>
    decreases entries.len(),
{
    if entries.len() == 0 {
        None
    } else if entries[0].0 == key {
        Some(entries[0].1)
    } else {
        find_entry(entries.drop_first(), key)
    }
}

pub open spec fn entry_str(entries: Seq<(Seq<u8>, (bool, Seq<u8>))>, key: Seq<u8>) -> Option<
    Seq<char>,
> {
    match find_entry(entries, key) {
        Some(v) => if v.0 && valid_utf8(v.1) {
            Some(decode_utf8(v.1))
        } else {
            None
        },
        None => None,
    }
}

pub open spec fn token_num(b: Seq<u8>) -> Option<u64> {
    match p_u64(b) {
        Some(p) => if p.1.len() == 0 {
            Some(p.0)
        } else {
            None
        },
        None => None,
    }
}

pub open spec fn entry_num(entries: Seq<(Seq<u8>, (bool, Seq<u8>))>, key: Seq<u8>) -> u64 {
    match find_entry(entries, key) {
        Some(v) => if !v.0 {
            match token_num(v.1) {
                Some(n) => n,
                None => 0,
            }
        } else {
            0
        },
        None => 0,
    }
}

/// A claims document parsed in full.
pub open spec fn p_claims_entries(s: Seq<u8>) -> Option<Seq<(Seq<u8>, (bool, Seq<u8>))>> {
    match p_hdrs(s) {
        Some(p) => if p.1.len() == 0 {
            Some(p.0)
        } else {
            None
        },
        None => None,
    }
}

fn find_in<'a>(h: &'a HeaderList, key: &[u8]) -> (r: Option<&'a HeaderVal>)
    ensures
        match r {
            Some(v) => find_entry(h@, key@) == Some(v@),
            None => find_entry(h@, key@) is None,
        },
{
    let mut i: usize = 0;
    proof {
        assert(h@.skip(0) =~= h@);
    }
    while i < h.entries.len()
        invariant
            i <= h.entries@.len(),
            h@.len() == h.entries@.len(),
            find_entry(h@, key@) == find_entry(h@.skip(i as int), key@),
        decreases h.entries@.len() - i,
    {
        proof {
            assert(h@.skip(i as int)[0] == h@[i as int]);
            assert(h@[i as int] == (h.entries@[i as int].0@, h.entries@[i as int].1@));
            assert(h@.skip(i as int).drop_first() =~= h@.skip(i + 1 as int));
        }
        if bytes_eq(h.entries[i].0.as_slice(), key) {
            return Some(&h.entries[i].1);
        }
        i = i + 1;
    }
    proof {
        assert(h@.skip(h@.len() as int).len() == 0);
    }
    None
}

fn entry_to_str(v: Option<&HeaderVal>) -> (r: Option<String>)
    ensures
        match v {
            Some(hv) => ostr(r) == (if hv@.0 && valid_utf8(hv@.1) {
                Some(decode_utf8(hv@.1))
            } else {
                None::<Seq<char>>
            }),
            None => r is None,
        },
{
    match v {
        Some(hv) => match hv {
            HeaderVal::Text(b) => {
                let owned = b.clone();
                proof {
                    assert(owned@ == b@);
                }
                match string_from_utf8(owned) {
                    Some(s) => Some(s),
                    None => None,
                }
            },
            HeaderVal::Other(_) => None,
        },
        None => None,
    }
}

fn entry_to_num(v: Option<&HeaderVal>) -> (r: u64)
    ensures
        match v {
            Some(hv) => r == (if !hv@.0 {
                match token_num(hv@.1) {
                    Some(n) => n,
                    None => 0u64,
                }
            } else {
                0u64
            }),
            None => r == 0,
        },
{
    match v {
        Some(hv) => match hv {
            HeaderVal::Text(_) => 0,
            HeaderVal::Other(b) => {
                proof {
                    assert(b@.skip(0) =~= b@);
                }
                match crate::json::parse_u64(b.as_slice(), 0) {
                    Some((n, j)) => {
                        if j == b.len() {
                            proof {
                                assert(b@.skip(j as int).len() == 0);
                            }
                            n
                        } else {
                            proof {
                                assert(b@.skip(j as int).len() != 0);
                            }
                            0
                        }
                    },
                    None => 0,
                }
            },
        },
        None => 0,
    }
}

fn push_opt_str(h: &mut HeaderList, key: Vec<u8>, o: &Option<String>)
    ensures
        final(h)@ == old(h)@ + opt_str_entry(key@, *o),
{
    match o {
        Some(s) => {
            h.push(key, HeaderVal::Text(s.as_str().as_bytes_vec()));
            proof {
                assert(h@ =~= old(h)@ + opt_str_entry(key@, *o));
            }
        },
        None => {
            proof {
                assert(h@ =~= old(h)@ + opt_str_entry(key@, *o));
            }
        },
    }
}

fn push_num(h: &mut HeaderList, key: Vec<u8>, n: u64)
    ensures
        final(h)@ == old(h)@ + num_entry(key@, n),
{
    if n != 0 {
        let mut d: Vec<u8> = Vec::new();
        crate::json::emit_u64(&mut d, n);
        h.push(key, HeaderVal::Other(d));
        proof {
            assert(h@ =~= old(h)@ + num_entry(key@, n));
        }
    } else {
        proof {
            assert(h@ =~= old(h)@ + num_entry(key@, n));
        }
    }
}

impl JWTClaims {
    /// Create claims with `iat` the clock now and `exp` that plus the given
    /// number of hours; both saturate rather than overflow, and a clock
    /// before the epoch reads as zero.
    pub fn new(duration_hour: Option<i64>) -> (r: JWTClaims)
        ensures
            r.iss is None && r.sub is None && r.aud is None && r.jti is None,
            r.rp_host is None && r.ntor_session_id is None,
            r.nbf == 0,
            duration_hour is None ==> r.exp == 0,
            duration_hour matches Some(h) ==> {
                &&& h >= 0 ==> r.iat <= r.exp
                &&& (h >= 0 && h * 3600 <= u64::MAX - r.iat) ==> r.exp == r.iat + h * 3600
                &&& h < 0 ==> r.exp <= r.iat
            },
    {
        let now_raw = now_unix();
        let now: u64 = if now_raw < 0 {
            0
        } else {
            now_raw as u64
        };
        let exp: u64 = match duration_hour {
            Some(h) => {
                if h >= 0 {
                    let add = (h as u64).checked_mul(3600);
                    match add {
                        Some(secs) => {
                            match now.checked_add(secs) {
                                Some(e) => e,
                                None => u64::MAX,
                            }
                        },
                        None => u64::MAX,
                    }
                } else {
                    0
                }
            },
            None => 0,
        };
        JWTClaims {
            iss: None,
            sub: None,
            aud: None,
            exp,
            nbf: 0,
            iat: now,
            jti: None,
            rp_host: None,
            ntor_session_id: None,
        }
    }

    /// Move the expiry to the clock now plus the given number of hours.
    pub fn set_exp(&mut self, duration_hour: i64)
        ensures
            final(self).iat == old(self).iat,
            final(self).iss == old(self).iss && final(self).sub == old(self).sub,
            final(self).aud == old(self).aud && final(self).jti == old(self).jti,
            final(self).nbf == old(self).nbf,
            final(self).rp_host == old(self).rp_host,
            final(self).ntor_session_id == old(self).ntor_session_id,
    {
        let fresh = JWTClaims::new(Some(duration_hour));
        self.exp = fresh.exp;
    }

    /// Stamp `iat` with the clock now.
    pub fn set_current_iat(&mut self)
        ensures
            final(self).exp == old(self).exp,
            final(self).iss == old(self).iss && final(self).sub == old(self).sub,
            final(self).aud == old(self).aud && final(self).jti == old(self).jti,
            final(self).nbf == old(self).nbf,
            final(self).rp_host == old(self).rp_host,
            final(self).ntor_session_id == old(self).ntor_session_id,
    {
        let now_raw = now_unix();
        self.iat = if now_raw < 0 {
            0
        } else {
            now_raw as u64
        };
    }

    /// The canonical claims document.
    #[verifier::rlimit(100)]
    #[verifier::spinoff_prover]
    pub fn to_json_bytes(&self) -> (r: Vec<u8>)
        ensures
            r@ == ser_claims(*self),
    {
        let mut h = HeaderList::new();
        push_opt_str(&mut h, key_aud(), &self.aud);
        push_num(&mut h, key_exp(), self.exp);
        push_num(&mut h, key_iat(), self.iat);
        push_opt_str(&mut h, key_iss(), &self.iss);
        push_opt_str(&mut h, key_jti(), &self.jti);
        push_num(&mut h, key_nbf(), self.nbf);
        push_opt_str(&mut h, key_sid(), &self.ntor_session_id);
        push_opt_str(&mut h, key_sub(), &self.sub);
        push_opt_str(&mut h, key_upstream(), &self.rp_host);
        proof {
            assert(h@ =~= claims_entries(*self));
        }
        let mut out: Vec<u8> = Vec::new();
        emit_hdrs(&mut out, &h);
        proof {
            assert(out@ =~= ser_claims(*self));
        }
        out
    }

    /// Read a claims document back; unknown keys are ignored, missing
    /// numeric fields read as zero and missing strings as unset.
    pub fn from_json_bytes(input: &[u8]) -> (r: Option<JWTClaims>)
        ensures
            r is Some <==> p_claims_entries(input@) is Some,
            r matches Some(c) ==> p_claims_entries(input@) matches Some(es) && {
                &&& ostr(c.aud) == entry_str(es, k_aud())
                &&& ostr(c.iss) == entry_str(es, k_iss())
                &&& ostr(c.jti) == entry_str(es, k_jti())
                &&& ostr(c.sub) == entry_str(es, k_sub())
                &&& ostr(c.rp_host) == entry_str(es, k_upstream())
                &&& ostr(c.ntor_session_id) == entry_str(es, k_sid())
                &&& c.exp == entry_num(es, k_exp())
                &&& c.iat == entry_num(es, k_iat())
                &&& c.nbf == entry_num(es, k_nbf())
            },
    {
        proof {
            assert(input@.skip(0) =~= input@);
        }
        let (h, j) = match parse_hdrs(input, 0) {
            Some(p) => p,
            None => {
                return None;
            },
        };
        if j != input.len() {
            proof {
                assert(input@.skip(j as int).len() != 0);
            }
            return None;
        }
        proof {
            assert(input@.skip(j as int).len() == 0);
        }
        let ka = key_aud();
        let aud = entry_to_str(find_in(&h, ka.as_slice()));
        let ki = key_iss();
        let iss = entry_to_str(find_in(&h, ki.as_slice()));
        let kj = key_jti();
        let jti = entry_to_str(find_in(&h, kj.as_slice()));
        let ks = key_sub();
        let sub = entry_to_str(find_in(&h, ks.as_slice()));
        let ku = key_upstream();
        let rp_host = entry_to_str(find_in(&h, ku.as_slice()));
        let kd = key_sid();
        let ntor_session_id = entry_to_str(find_in(&h, kd.as_slice()));
        let ke = key_exp();
        let exp = entry_to_num(find_in(&h, ke.as_slice()));
        let kt = key_iat();
        let iat = entry_to_num(find_in(&h, kt.as_slice()));
        let kn = key_nbf();
        let nbf = entry_to_num(find_in(&h, kn.as_slice()));
        Some(JWTClaims { iss, sub, aud, exp, nbf, iat, jti, rp_host, ntor_session_id })
    }
}

/// Every token issued carries `iat <= exp`, and when the configured lifetime
/// and the clock do not overflow the counter, `exp - iat` is exactly the
/// lifetime in seconds.
pub proof fn lemma_issued_claims_lifetime(c: JWTClaims, h: i64)
    requires
        h >= 0,
        c.iat <= c.exp,
        h * 3600 <= u64::MAX - c.iat ==> c.exp == c.iat + h * 3600,
        h * 3600 <= u64::MAX - c.iat,
    ensures
        c.iat <= c.exp,
        c.exp - c.iat == h * 3600,
{
}


// ---------------------------------------------------------------------------
// The claims document round trip: parsing the canonical serialization gives
// every field back.
// ---------------------------------------------------------------------------

proof fn lemma_find_entry_concat(
    a: Seq<(Seq<u8>, (bool, Seq<u8>))>,
    b: Seq<(Seq<u8>, (bool, Seq<u8>))>,
    key: Seq<u8>,
)
    ensures
        find_entry(a + b, key) == (match find_entry(a, key) {
            Some(v) => Some(v),
            None => find_entry(b, key),
        }),
    decreases a.len(),
{
    if a.len() == 0 {
        assert(a + b =~= b);
    } else {
        let whole = a + b;
        assert(whole[0] == a[0]);
        assert(whole.drop_first() =~= a.drop_first() + b);
        lemma_find_entry_concat(a.drop_first(), b, key);
    }
}

proof fn lemma_find_opt_str(key: Seq<u8>, o: Option<String>, probe: Seq<u8>)
    ensures
        key == probe ==> find_entry(opt_str_entry(key, o), probe) == (match o {
            Some(s) => Some((true, encode_utf8(s@))),
            None => None::<(bool, Seq<u8>)>,
        }),
        key != probe ==> find_entry(opt_str_entry(key, o), probe) is None,
{
    match o {
        Some(s) => {
            let e = opt_str_entry(key, o);
            assert(e[0] == (key, (true, encode_utf8(s@))));
            assert(e.drop_first() =~= Seq::<(Seq<u8>, (bool, Seq<u8>))>::empty());
            if key != probe {
                assert(find_entry(e, probe) == find_entry(e.drop_first(), probe));
                assert(find_entry(e.drop_first(), probe) is None);
            }
        },
        None => {},
    }
}

proof fn lemma_find_num(key: Seq<u8>, n: u64, probe: Seq<u8>)
    ensures
        key == probe && n != 0 ==> find_entry(num_entry(key, n), probe) == Some(
            (false, dec_rep(n)),
        ),
        key != probe || n == 0 ==> find_entry(num_entry(key, n), probe) is None,
{
    if n != 0 {
        let e = num_entry(key, n);
        assert(e[0] == (key, (false, dec_rep(n))));
        assert(e.drop_first() =~= Seq::<(Seq<u8>, (bool, Seq<u8>))>::empty());
        if key != probe {
            assert(find_entry(e, probe) == find_entry(e.drop_first(), probe));
            assert(find_entry(e.drop_first(), probe) is None);
        }
    }
}

/// Where a field sits in the parsed claims document: a present string field
/// under its own key, nothing under an absent one.
#[verifier::rlimit(100)]
#[verifier::spinoff_prover]
proof fn lemma_claims_fields(c: JWTClaims, probe: Seq<u8>)
    requires
        probe == k_aud() || probe == k_exp() || probe == k_iat() || probe == k_iss() || probe
            == k_jti() || probe == k_nbf() || probe == k_sid() || probe == k_sub() || probe
            == k_upstream(),
    ensures
        probe == k_aud() ==> find_entry(claims_entries(c), probe) == opt_find(c.aud),
        probe == k_iss() ==> find_entry(claims_entries(c), probe) == opt_find(c.iss),
        probe == k_jti() ==> find_entry(claims_entries(c), probe) == opt_find(c.jti),
        probe == k_sub() ==> find_entry(claims_entries(c), probe) == opt_find(c.sub),
        probe == k_sid() ==> find_entry(claims_entries(c), probe) == opt_find(c.ntor_session_id),
        probe == k_upstream() ==> find_entry(claims_entries(c), probe) == opt_find(c.rp_host),
        probe == k_exp() ==> find_entry(claims_entries(c), probe) == num_find(c.exp),
        probe == k_iat() ==> find_entry(claims_entries(c), probe) == num_find(c.iat),
        probe == k_nbf() ==> find_entry(claims_entries(c), probe) == num_find(c.nbf),
{
    let e1 = opt_str_entry(k_aud(), c.aud);
    let e2 = num_entry(k_exp(), c.exp);
    let e3 = num_entry(k_iat(), c.iat);
    let e4 = opt_str_entry(k_iss(), c.iss);
    let e5 = opt_str_entry(k_jti(), c.jti);
    let e6 = num_entry(k_nbf(), c.nbf);
    let e7 = opt_str_entry(k_sid(), c.ntor_session_id);
    let e8 = opt_str_entry(k_sub(), c.sub);
    let e9 = opt_str_entry(k_upstream(), c.rp_host);
    lemma_find_entry_concat(e1, e2 + (e3 + (e4 + (e5 + (e6 + (e7 + (e8 + e9)))))), probe);
    lemma_find_entry_concat(e2, e3 + (e4 + (e5 + (e6 + (e7 + (e8 + e9))))), probe);
    lemma_find_entry_concat(e3, e4 + (e5 + (e6 + (e7 + (e8 + e9)))), probe);
    lemma_find_entry_concat(e4, e5 + (e6 + (e7 + (e8 + e9))), probe);
    lemma_find_entry_concat(e5, e6 + (e7 + (e8 + e9)), probe);
    lemma_find_entry_concat(e6, e7 + (e8 + e9), probe);
    lemma_find_entry_concat(e7, e8 + e9, probe);
    lemma_find_entry_concat(e8, e9, probe);
    lemma_find_opt_str(k_aud(), c.aud, probe);
    lemma_find_num(k_exp(), c.exp, probe);
    lemma_find_num(k_iat(), c.iat, probe);
    lemma_find_opt_str(k_iss(), c.iss, probe);
    lemma_find_opt_str(k_jti(), c.jti, probe);
    lemma_find_num(k_nbf(), c.nbf, probe);
    lemma_find_opt_str(k_sid(), c.ntor_session_id, probe);
    lemma_find_opt_str(k_sub(), c.sub, probe);
    lemma_find_opt_str(k_upstream(), c.rp_host, probe);
}

pub open spec fn opt_find(o: Option<String>) -> Option<(bool, Seq<u8>)> {
    match o {
        Some(s) => Some((true, encode_utf8(s@))),
        None => None,
    }
}

pub open spec fn num_find(n: u64) -> Option<(bool, Seq<u8>)> {
    if n == 0 {
        None
    } else {
        Some((false, dec_rep(n)))
    }
}

/// Whether every text field of the claims can ride in a JSON string.
pub open spec fn wf_claims(c: JWTClaims) -> bool {
    &&& (c.aud matches Some(s) ==> crate::json::wf_string(s@))
    &&& (c.iss matches Some(s) ==> crate::json::wf_string(s@))
    &&& (c.jti matches Some(s) ==> crate::json::wf_string(s@))
    &&& (c.sub matches Some(s) ==> crate::json::wf_string(s@))
    &&& (c.rp_host matches Some(s) ==> crate::json::wf_string(s@))
    &&& (c.ntor_session_id matches Some(s) ==> crate::json::wf_string(s@))
}

proof fn lemma_wf_hdrs_concat(a: Seq<(Seq<u8>, (bool, Seq<u8>))>, b: Seq<(Seq<u8>, (bool, Seq<u8>))>)
    requires
        crate::headers::wf_hdrs(a),
        crate::headers::wf_hdrs(b),
    ensures
        crate::headers::wf_hdrs(a + b),
{
    assert forall|i: int|
        0 <= i < (a + b).len() implies crate::json::wf_text(#[trigger] (a + b)[i].0)
        && crate::headers::wf_hval((a + b)[i].1) by {
        if i < a.len() {
            assert((a + b)[i] == a[i]);
            assert(crate::json::wf_text(a[i].0) && crate::headers::wf_hval(a[i].1));
        } else {
            assert((a + b)[i] == b[i - a.len()]);
            assert(crate::json::wf_text(b[i - a.len()].0) && crate::headers::wf_hval(
                b[i - a.len()].1,
            ));
        }
    }
}

proof fn lemma_opt_entry_wf(key: Seq<u8>, o: Option<String>)
    requires
        crate::json::wf_text(key),
        o matches Some(s) ==> crate::json::wf_string(s@),
    ensures
        crate::headers::wf_hdrs(opt_str_entry(key, o)),
{
    match o {
        Some(s) => {
            let e = opt_str_entry(key, o);
            assert(e[0] == (key, (true, encode_utf8(s@))));
        },
        None => {},
    }
}

proof fn lemma_num_entry_wf(key: Seq<u8>, n: u64)
    requires
        crate::json::wf_text(key),
    ensures
        crate::headers::wf_hdrs(num_entry(key, n)),
{
    if n != 0 {
        let e = num_entry(key, n);
        assert(e[0] == (key, (false, dec_rep(n))));
        crate::json::lemma_dec_rep_val(n);
        assert(crate::headers::wf_other(dec_rep(n))) by {
            assert(forall|j: int|
                0 <= j < dec_rep(n).len() ==> crate::json::is_digit(#[trigger] dec_rep(n)[j]));
        }
    }
}

proof fn lemma_claims_entries_wf(c: JWTClaims)
    requires
        wf_claims(c),
    ensures
        crate::headers::wf_hdrs(claims_entries(c)),
{
    let e1 = opt_str_entry(k_aud(), c.aud);
    let e2 = num_entry(k_exp(), c.exp);
    let e3 = num_entry(k_iat(), c.iat);
    let e4 = opt_str_entry(k_iss(), c.iss);
    let e5 = opt_str_entry(k_jti(), c.jti);
    let e6 = num_entry(k_nbf(), c.nbf);
    let e7 = opt_str_entry(k_sid(), c.ntor_session_id);
    let e8 = opt_str_entry(k_sub(), c.sub);
    let e9 = opt_str_entry(k_upstream(), c.rp_host);
    lemma_opt_entry_wf(k_aud(), c.aud);
    lemma_num_entry_wf(k_exp(), c.exp);
    lemma_num_entry_wf(k_iat(), c.iat);
    lemma_opt_entry_wf(k_iss(), c.iss);
    lemma_opt_entry_wf(k_jti(), c.jti);
    lemma_num_entry_wf(k_nbf(), c.nbf);
    lemma_opt_entry_wf(k_sid(), c.ntor_session_id);
    lemma_opt_entry_wf(k_sub(), c.sub);
    lemma_opt_entry_wf(k_upstream(), c.rp_host);
    lemma_wf_hdrs_concat(e8, e9);
    lemma_wf_hdrs_concat(e7, e8 + e9);
    lemma_wf_hdrs_concat(e6, e7 + (e8 + e9));
    lemma_wf_hdrs_concat(e5, e6 + (e7 + (e8 + e9)));
    lemma_wf_hdrs_concat(e4, e5 + (e6 + (e7 + (e8 + e9))));
    lemma_wf_hdrs_concat(e3, e4 + (e5 + (e6 + (e7 + (e8 + e9)))));
    lemma_wf_hdrs_concat(e2, e3 + (e4 + (e5 + (e6 + (e7 + (e8 + e9))))));
    lemma_wf_hdrs_concat(e1, e2 + (e3 + (e4 + (e5 + (e6 + (e7 + (e8 + e9)))))));
}

/// Parsing the canonical claims document gives every claim back: the whole
/// document round-trips, so a token's payload carries exactly the claims it
/// was minted with.
pub proof fn lemma_claims_round_trip(c: JWTClaims)
    requires
        wf_claims(c),
    ensures
        p_claims_entries(ser_claims(c)) == Some(claims_entries(c)),
        entry_str(claims_entries(c), k_aud()) == ostr(c.aud),
        entry_str(claims_entries(c), k_iss()) == ostr(c.iss),
        entry_str(claims_entries(c), k_jti()) == ostr(c.jti),
        entry_str(claims_entries(c), k_sub()) == ostr(c.sub),
        entry_str(claims_entries(c), k_upstream()) == ostr(c.rp_host),
        entry_str(claims_entries(c), k_sid()) == ostr(c.ntor_session_id),
        entry_num(claims_entries(c), k_exp()) == c.exp,
        entry_num(claims_entries(c), k_iat()) == c.iat,
        entry_num(claims_entries(c), k_nbf()) == c.nbf,
{
    lemma_claims_entries_wf(c);
    crate::headers::lemma_p_hdrs_inv(claims_entries(c), Seq::empty());
    assert(ser_claims(c) + Seq::<u8>::empty() =~= ser_claims(c));
    lemma_claims_fields(c, k_aud());
    lemma_claims_fields(c, k_iss());
    lemma_claims_fields(c, k_jti());
    lemma_claims_fields(c, k_sub());
    lemma_claims_fields(c, k_upstream());
    lemma_claims_fields(c, k_sid());
    lemma_claims_fields(c, k_exp());
    lemma_claims_fields(c, k_iat());
    lemma_claims_fields(c, k_nbf());
    lemma_str_fields(c.aud);
    lemma_str_fields(c.iss);
    lemma_str_fields(c.jti);
    lemma_str_fields(c.sub);
    lemma_str_fields(c.rp_host);
    lemma_str_fields(c.ntor_session_id);
    lemma_num_fields(c.exp);
    lemma_num_fields(c.iat);
    lemma_num_fields(c.nbf);
}

proof fn lemma_str_fields(o: Option<String>)
    ensures
        match opt_find(o) {
            Some(v) => v.0 && valid_utf8(v.1) && decode_utf8(v.1) == o.unwrap()@,
            None => o is None,
        },
{
    match o {
        Some(s) => {
            vstd::utf8::encode_utf8_valid_utf8(s@);
            vstd::utf8::encode_utf8_decode_utf8(s@);
        },
        None => {},
    }
}

proof fn lemma_num_fields(n: u64)
    ensures
        match num_find(n) {
            Some(v) => !v.0 && token_num(v.1) == Some(n),
            None => n == 0,
        },
{
    if n != 0 {
        crate::json::lemma_p_u64_inv(n, Seq::empty());
        assert(dec_rep(n) + Seq::<u8>::empty() =~= dec_rep(n));
    }
}


// ---------------------------------------------------------------------------
// Claims built from printable text always sign: their document is an ASCII
// JSON object, so it can ride in a string, and the signer accepts it.
// ---------------------------------------------------------------------------

/// Every text claim is printable ASCII, as the identifiers and URLs this
/// system puts there are.
pub open spec fn printable_claims(c: JWTClaims) -> bool {
    &&& (c.aud matches Some(s) ==> printable_chars(s@))
    &&& (c.iss matches Some(s) ==> printable_chars(s@))
    &&& (c.jti matches Some(s) ==> printable_chars(s@))
    &&& (c.sub matches Some(s) ==> printable_chars(s@))
    &&& (c.rp_host matches Some(s) ==> printable_chars(s@))
    &&& (c.ntor_session_id matches Some(s) ==> printable_chars(s@))
}

proof fn lemma_ascii_hdrs_concat(
    a: Seq<(Seq<u8>, (bool, Seq<u8>))>,
    b: Seq<(Seq<u8>, (bool, Seq<u8>))>,
)
    requires
        ascii_hdrs(a),
        ascii_hdrs(b),
    ensures
        ascii_hdrs(a + b),
{
    assert forall|i: int|
        0 <= i < (a + b).len() implies ascii_seq(#[trigger] (a + b)[i].0) && ascii_seq(
        (a + b)[i].1.1,
    ) by {
        if i < a.len() {
            assert((a + b)[i] == a[i]);
            assert(ascii_seq(a[i].0) && ascii_seq(a[i].1.1));
        } else {
            assert((a + b)[i] == b[i - a.len()]);
            assert(ascii_seq(b[i - a.len()].0) && ascii_seq(b[i - a.len()].1.1));
        }
    }
}

proof fn lemma_opt_entry_ascii(key: Seq<u8>, o: Option<String>)
    requires
        ascii_seq(key),
        o matches Some(s) ==> printable_chars(s@),
    ensures
        ascii_hdrs(opt_str_entry(key, o)),
{
    match o {
        Some(s) => {
            lemma_printable_encode(s@);
            let e = opt_str_entry(key, o);
            assert(e[0] == (key, (true, encode_utf8(s@))));
        },
        None => {},
    }
}

proof fn lemma_num_entry_ascii(key: Seq<u8>, n: u64)
    requires
        ascii_seq(key),
    ensures
        ascii_hdrs(num_entry(key, n)),
{
    if n != 0 {
        lemma_dec_rep_ascii(n);
        let e = num_entry(key, n);
        assert(e[0] == (key, (false, dec_rep(n))));
    }
}

/// The whole claims document of printable claims is a well-formed ASCII JSON
/// object: it can be carried as a string and parses back in full.
pub proof fn lemma_claims_doc_signable(c: JWTClaims)
    requires
        printable_claims(c),
    ensures
        wf_claims(c),
        vstd::utf8::valid_utf8(ser_claims(c)),
        p_claims_entries(ser_claims(c)) == Some(claims_entries(c)),
{
    assert(wf_claims(c)) by {
        if c.aud is Some {
            lemma_printable_encode(c.aud.unwrap()@);
        }
        if c.iss is Some {
            lemma_printable_encode(c.iss.unwrap()@);
        }
        if c.jti is Some {
            lemma_printable_encode(c.jti.unwrap()@);
        }
        if c.sub is Some {
            lemma_printable_encode(c.sub.unwrap()@);
        }
        if c.rp_host is Some {
            lemma_printable_encode(c.rp_host.unwrap()@);
        }
        if c.ntor_session_id is Some {
            lemma_printable_encode(c.ntor_session_id.unwrap()@);
        }
    }
    assert(ascii_seq(k_aud()) && ascii_seq(k_exp()) && ascii_seq(k_iat()) && ascii_seq(k_iss())
        && ascii_seq(k_jti()) && ascii_seq(k_nbf()) && ascii_seq(k_sid()) && ascii_seq(k_sub())
        && ascii_seq(k_upstream()));
    let e1 = opt_str_entry(k_aud(), c.aud);
    let e2 = num_entry(k_exp(), c.exp);
    let e3 = num_entry(k_iat(), c.iat);
    let e4 = opt_str_entry(k_iss(), c.iss);
    let e5 = opt_str_entry(k_jti(), c.jti);
    let e6 = num_entry(k_nbf(), c.nbf);
    let e7 = opt_str_entry(k_sid(), c.ntor_session_id);
    let e8 = opt_str_entry(k_sub(), c.sub);
    let e9 = opt_str_entry(k_upstream(), c.rp_host);
    lemma_opt_entry_ascii(k_aud(), c.aud);
    lemma_num_entry_ascii(k_exp(), c.exp);
    lemma_num_entry_ascii(k_iat(), c.iat);
    lemma_opt_entry_ascii(k_iss(), c.iss);
    lemma_opt_entry_ascii(k_jti(), c.jti);
    lemma_num_entry_ascii(k_nbf(), c.nbf);
    lemma_opt_entry_ascii(k_sid(), c.ntor_session_id);
    lemma_opt_entry_ascii(k_sub(), c.sub);
    lemma_opt_entry_ascii(k_upstream(), c.rp_host);
    lemma_ascii_hdrs_concat(e8, e9);
    lemma_ascii_hdrs_concat(e7, e8 + e9);
    lemma_ascii_hdrs_concat(e6, e7 + (e8 + e9));
    lemma_ascii_hdrs_concat(e5, e6 + (e7 + (e8 + e9)));
    lemma_ascii_hdrs_concat(e4, e5 + (e6 + (e7 + (e8 + e9))));
    lemma_ascii_hdrs_concat(e3, e4 + (e5 + (e6 + (e7 + (e8 + e9)))));
    lemma_ascii_hdrs_concat(e2, e3 + (e4 + (e5 + (e6 + (e7 + (e8 + e9))))));
    lemma_ascii_hdrs_concat(e1, e2 + (e3 + (e4 + (e5 + (e6 + (e7 + (e8 + e9)))))));
    lemma_ser_hdrs_ascii(claims_entries(c));
    assert(vstd::utf8::valid_utf8(ser_claims(c))) by {
        crate::util::lemma_ascii_valid_utf8(ser_claims(c));
    }
    lemma_claims_round_trip(c);
}

} // verus!
