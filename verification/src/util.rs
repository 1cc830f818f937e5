//! Small shared helpers used by both proxy nodes: a verified hex codec for
//! stashing key material in the string-valued scratch map, decimal rendering,
//! and byte/string conversions.

use vstd::prelude::*;
use vstd::utf8::valid_utf8;
use vstd::utf8::decode_utf8;
use vstd::utf8::encode_utf8;
use vstd::utf8::valid_first_scalar;
use vstd::utf8::length_of_first_scalar;
use vstd::utf8::decode_first_scalar;
use vstd::utf8::pop_first_scalar;
use vstd::string::StrSliceExecFns;
use vstd::string::StringSliceAdditionalSpecFns;
use crate::json::dec_rep;
use crate::json::emit_u64;
use crate::trusted::string_from_utf8;

verus! {

pub fn is_zero(x: &usize) -> (r: bool)
    ensures
        r == (*x == 0),
{
    *x == 0
}

/// Fallback JWT signing key used where no key is configured.
pub fn get_secret_key() -> (r: String)
    ensures
        r@ == "secret"@,
{
    "secret".to_owned()
}

/// A bearer token with a one-day lifetime and no other claims; minting it
/// always succeeds.
pub fn generate_standard_token(secret_key: &str) -> (r: Result<String, String>)
    ensures
        r is Ok,
        r matches Ok(t) ==> exists|c: crate::jwt::JWTClaims|
            #![trigger crate::jwt::ser_claims(c)]
            {
                &&& t@ == crate::trusted::hs256_token(
                    decode_utf8(crate::jwt::ser_claims(c)),
                    encode_utf8(secret_key@),
                )
                &&& c.iss is None && c.sub is None && c.aud is None && c.jti is None
                &&& c.rp_host is None && c.ntor_session_id is None
                &&& c.nbf == 0
                &&& c.iat <= c.exp
                &&& c.iat + 86400 <= u64::MAX ==> c.exp == c.iat + 86400
            },
{
    let claims = crate::jwt::JWTClaims::new(Some(24));
    let ghost gc = claims;
    proof {
        assert(crate::jwt::printable_claims(gc));
        crate::jwt::lemma_claims_doc_signable(gc);
    }
    let json = claims.to_json_bytes();
    let json_str = match string_from_utf8(json) {
        Some(s) => s,
        None => {
            proof {
                assert(false);
            }
            return Err("claims not representable".to_owned());
        },
    };
    proof {
        vstd::utf8::decode_utf8_encode_utf8(crate::jwt::ser_claims(gc));
        assert(exists|c: crate::jwt::JWTClaims|
            vstd::utf8::encode_utf8(json_str@) == #[trigger] crate::jwt::ser_claims(c)
                && crate::jwt::wf_claims(c)) by {
            assert(vstd::utf8::encode_utf8(json_str@) == crate::jwt::ser_claims(gc)
                && crate::jwt::wf_claims(gc));
        }
    }
    match crate::trusted::jwt_sign(json_str.as_str(), secret_key.as_bytes()) {
        Ok(t) => Ok(t),
        Err(_) => {
            proof {
                assert(false);
            }
            Err("claims not representable".to_owned())
        },
    }
}

/// Bytes below 128 decode as themselves: the ASCII fragment of UTF-8.
pub proof fn lemma_ascii_valid_utf8(s: Seq<u8>)
    requires
        forall|i: int| 0 <= i < s.len() ==> s[i] < 128,
    ensures
        valid_utf8(s),
        decode_utf8(s) == Seq::new(s.len(), |i: int| s[i] as char),
    decreases s.len(),
{
    if s.len() == 0 {
        assert(decode_utf8(s) =~= Seq::new(s.len(), |i: int| s[i] as char));
    } else {
        let b0: u8 = s[0];
        assert(b0 & 0x80 == 0) by (bit_vector)
            requires
                b0 < 128,
        ;
        assert(b0 & 0x7f == b0) by (bit_vector)
            requires
                b0 < 128,
        ;
        assert(valid_first_scalar(s));
        assert(length_of_first_scalar(s) == 1);
        assert(decode_first_scalar(s) == s[0]);
        assert(pop_first_scalar(s) =~= s.drop_first());
        assert(forall|i: int| 0 <= i < s.drop_first().len() ==> s.drop_first()[i] < 128);
        lemma_ascii_valid_utf8(s.drop_first());
        assert(decode_utf8(s) =~= Seq::new(s.len(), |i: int| s[i] as char));
    }
}

/// Decimal rendering of a number, as text.
pub open spec fn dec_str(n: u64) -> Seq<char> {
    decode_utf8(dec_rep(n))
}

pub fn u64_to_string(n: u64) -> (r: String)
    ensures
        r@ == dec_str(n),
{
    let mut digits: Vec<u8> = Vec::new();
    emit_u64(&mut digits, n);
    proof {
        crate::json::lemma_dec_rep_val(n);
        lemma_ascii_valid_utf8(digits@);
    }
    match string_from_utf8(digits) {
        Some(s) => s,
        None => {
            proof {
                assert(false);
            }
            String::new()
        },
    }
}

// ---------------------------------------------------------------------------
// Hex: key material rendered into the string-valued scratch map.
// ---------------------------------------------------------------------------

pub open spec fn hex_digit(n: u8) -> u8 {
    if n < 10 {
        (48 + n) as u8
    } else {
        (87 + n) as u8
    }
}

pub open spec fn hex_rep(s: Seq<u8>) -> Seq<u8>
    decreases s.len(),
{
    if s.len() == 0 {
        Seq::empty()
    } else {
        seq![hex_digit(s[0] / 16), hex_digit(s[0] % 16)] + hex_rep(s.drop_first())
    }
}

/// The lowercase hex text of a byte sequence.
pub open spec fn hex_str(s: Seq<u8>) -> Seq<char> {
    decode_utf8(hex_rep(s))
}

pub open spec fn hex_val(d: u8) -> Option<u8> {
    if 48 <= d <= 57 {
        Some((d - 48) as u8)
    } else if 97 <= d <= 102 {
        Some((d - 87) as u8)
    } else {
        None
    }
}

pub open spec fn p_hex(s: Seq<u8>) -> Option<Seq<u8>>
    decreases s.len(),
{
    if s.len() == 0 {
        Some(Seq::empty())
    } else if s.len() == 1 {
        None
    } else {
        match (hex_val(s[0]), hex_val(s[1])) {
            (Some(hi), Some(lo)) => match p_hex(s.skip(2)) {
                Some(rest) => Some(seq![(hi * 16 + lo) as u8] + rest),
                None => None,
            },
            _ => None,
        }
    }
}

proof fn lemma_hex_rep_snoc(s: Seq<u8>)
    requires
        s.len() > 0,
    ensures
        hex_rep(s) == hex_rep(s.drop_last()) + seq![
            hex_digit(s.last() / 16),
            hex_digit(s.last() % 16),
        ],
    decreases s.len(),
{
    if s.len() == 1 {
        assert(s.drop_last() =~= Seq::<u8>::empty());
        assert(s.drop_first() =~= Seq::<u8>::empty());
        assert(hex_rep(s) =~= hex_rep(s.drop_last()) + seq![
            hex_digit(s.last() / 16),
            hex_digit(s.last() % 16),
        ]);
    } else {
        lemma_hex_rep_snoc(s.drop_first());
        assert(s.drop_first().drop_last() =~= s.drop_last().drop_first());
        assert(s.drop_first().last() == s.last());
        assert(s.drop_last()[0] == s[0]);
        assert(s.drop_last().len() > 0);
        assert(hex_rep(s.drop_last()) == seq![
            hex_digit(s[0] / 16),
            hex_digit(s[0] % 16),
        ] + hex_rep(s.drop_last().drop_first()));
        assert(hex_rep(s) =~= hex_rep(s.drop_last()) + seq![
            hex_digit(s.last() / 16),
            hex_digit(s.last() % 16),
        ]);
    }
}

proof fn lemma_hex_rep_ascii(s: Seq<u8>)
    ensures
        forall|i: int| 0 <= i < hex_rep(s).len() ==> hex_rep(s)[i] < 128,
        hex_rep(s).len() == 2 * s.len(),
    decreases s.len(),
{
    if s.len() > 0 {
        lemma_hex_rep_ascii(s.drop_first());
    }
}

pub fn hex_encode(bytes: &[u8]) -> (r: String)
    ensures
        r@ == hex_str(bytes@),
{
    let mut out: Vec<u8> = Vec::new();
    let mut i: usize = 0;
    while i < bytes.len()
        invariant
            i <= bytes@.len(),
            out@ == hex_rep(bytes@.take(i as int)),
        decreases bytes@.len() - i,
    {
        let b = bytes[i];
        let hi = b / 16;
        let lo = b % 16;
        out.push(if hi < 10 {
            48 + hi
        } else {
            87 + hi
        });
        out.push(if lo < 10 {
            48 + lo
        } else {
            87 + lo
        });
        proof {
            lemma_hex_rep_snoc(bytes@.take(i + 1 as int));
            assert(bytes@.take(i + 1 as int).drop_last() =~= bytes@.take(i as int));
            assert(bytes@.take(i + 1 as int).last() == bytes@[i as int]);
            assert(out@ =~= hex_rep(bytes@.take(i + 1 as int)));
        }
        i = i + 1;
    }
    proof {
        assert(bytes@.take(bytes@.len() as int) =~= bytes@);
        lemma_hex_rep_ascii(bytes@);
        lemma_ascii_valid_utf8(out@);
    }
    match string_from_utf8(out) {
        Some(s) => s,
        None => {
            proof {
                assert(false);
            }
            String::new()
        },
    }
}

pub fn hex_decode(s: &str) -> (r: Option<Vec<u8>>)
    ensures
        match r {
            Some(v) => p_hex(s.spec_bytes()) == Some(v@),
            None => p_hex(s.spec_bytes()) is None,
        },
{
    let bytes = s.as_bytes();
    let mut out: Vec<u8> = Vec::new();
    let mut i: usize = 0;
    proof {
        assert(bytes@.skip(0) =~= bytes@);
    }
    let ghost total = bytes@;
    while i < bytes.len()
        invariant
            i <= bytes@.len(),
            bytes@ == total,
            total == s.spec_bytes(),
            prepend_hex(out@, p_hex(total.skip(i as int))) == p_hex(total),
        decreases bytes@.len() - i,
    {
        proof {
            assert(total.skip(i as int)[0] == total[i as int]);
        }
        if i + 1 == bytes.len() {
            proof {
                assert(total.skip(i as int).len() == 1);
            }
            return None;
        }
        let d0 = bytes[i];
        let d1 = bytes[i + 1];
        proof {
            assert(total.skip(i as int)[1] == total[i + 1]);
            assert(total.skip(i as int).skip(2) =~= total.skip(i + 2 as int));
        }
        let hi: u8 = if 48 <= d0 && d0 <= 57 {
            d0 - 48
        } else if 97 <= d0 && d0 <= 102 {
            d0 - 87
        } else {
            return None;
        };
        let lo: u8 = if 48 <= d1 && d1 <= 57 {
            d1 - 48
        } else if 97 <= d1 && d1 <= 102 {
            d1 - 87
        } else {
            return None;
        };
        let ghost out0 = out@;
        out.push(hi * 16 + lo);
        proof {
            assert(out@ =~= out0 + seq![(hi * 16 + lo) as u8]);
            lemma_prepend_hex_assoc(out0, seq![(hi * 16 + lo) as u8], p_hex(total.skip(i + 2 as int)));
        }
        i = i + 2;
    }
    proof {
        assert(total.skip(i as int) =~= Seq::<u8>::empty());
        assert(p_hex(total.skip(i as int)) == Some(Seq::<u8>::empty()));
        assert(out@ + Seq::<u8>::empty() =~= out@);
    }
    Some(out)
}

pub open spec fn prepend_hex(acc: Seq<u8>, o: Option<Seq<u8>>) -> Option<Seq<u8>> {
    match o {
        Some(v) => Some(acc + v),
        None => None,
    }
}

proof fn lemma_prepend_hex_assoc(a: Seq<u8>, b: Seq<u8>, o: Option<Seq<u8>>)
    ensures
        prepend_hex(a, prepend_hex(b, o)) == prepend_hex(a + b, o),
{
    match o {
        Some(v) => {
            assert(a + (b + v) =~= (a + b) + v);
        },
        None => {},
    }
}

/// Decoding the hex text of any byte sequence gives the bytes back.
pub proof fn lemma_hex_round_trip(bytes: Seq<u8>)
    ensures
        p_hex(hex_rep(bytes)) == Some(bytes),
    decreases bytes.len(),
{
    if bytes.len() == 0 {
        assert(hex_rep(bytes) =~= Seq::<u8>::empty());
    } else {
        let b = bytes[0];
        let rep = hex_rep(bytes);
        assert(rep =~= seq![hex_digit(b / 16), hex_digit(b % 16)] + hex_rep(bytes.drop_first()));
        assert(hex_val(hex_digit(b / 16)) == Some((b / 16) as u8));
        assert(hex_val(hex_digit(b % 16)) == Some((b % 16) as u8));
        assert(rep.skip(2) =~= hex_rep(bytes.drop_first()));
        lemma_hex_round_trip(bytes.drop_first());
        assert((b / 16) * 16 + (b % 16) == b) by (nonlinear_arith);
        assert(seq![b] + bytes.drop_first() =~= bytes);
    }
}

/// Exactly a 32-byte string becomes a key.
pub fn string_to_array32(s: String) -> (r: Option<[u8; 32]>)
    ensures
        r is Some <==> encode_utf8(s@).len() == 32,
        r matches Some(a) ==> a@ == encode_utf8(s@),
{
    let bytes = s.as_str().as_bytes();
    if bytes.len() != 32 {
        return None;
    }
    let mut a: [u8; 32] = [0; 32];
    let mut i: usize = 0;
    while i < 32
        invariant
            i <= 32,
            bytes@.len() == 32,
            bytes@ == encode_utf8(s@),
            a@.len() == 32,
            forall|j: int| 0 <= j < i ==> a@[j] == bytes@[j],
        decreases 32 - i,
    {
        a[i] = bytes[i];
        i = i + 1;
    }
    proof {
        assert(a@ =~= encode_utf8(s@));
    }
    Some(a)
}

} // verus!
