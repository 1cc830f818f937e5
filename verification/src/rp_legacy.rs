//! Earlier wire shapes of the reverse proxy that remain part of its public
//! surface, and the draft shared handler that manipulates plain header pairs.

use vstd::prelude::*;
use crate::ctx::Layer8Context;
use crate::maps::str_eq;
use crate::wire::ser_str_obj;
use crate::wire::ser_str_obj2;
use crate::wire::str_obj_to_bytes;
use crate::wire::str_obj2_to_bytes;
use crate::json::ser_key;
use crate::json::ser_bool;
use crate::json::RBRACE;
use crate::json::emit_key;
use crate::json::emit_bool;
use crate::keys::k_int_request_body;
use crate::keys::key_int_request_body;
use crate::keys::k_spa_request_body;
use crate::keys::key_spa_request_body;
use crate::keys::k_be_response_body;
use crate::keys::key_be_response_body;
use crate::keys::k_rp_response_body;
use crate::keys::key_rp_response_body;
use crate::keys::k_success;
use crate::keys::key_success;
use crate::util::u64_to_string;
use crate::util::dec_str;

verus! {

/// The header names the draft handler knows.
pub enum HeaderKeys {
    RpHeaderRequestKey,
    RpHeaderResponseKey,
    SpaHeaderRequestKey,
    IntHeaderRequestKey,
    FpHeaderRequestKey,
    BeHeaderResponseKey,
}

impl HeaderKeys {
    pub fn as_str(&self) -> (r: &'static str)
        ensures
            match self {
                HeaderKeys::RpHeaderRequestKey => r@ == "rp_request_header"@,
                HeaderKeys::RpHeaderResponseKey => r@ == "rp_response_header"@,
                HeaderKeys::SpaHeaderRequestKey => r@ == "spa_request_header"@,
                HeaderKeys::BeHeaderResponseKey => r@ == "be_response_header"@,
                HeaderKeys::FpHeaderRequestKey => r@ == "fp_request_header"@,
                HeaderKeys::IntHeaderRequestKey => r@ == "int_request_header"@,
            },
    {
        match self {
            HeaderKeys::RpHeaderRequestKey => "rp_request_header",
            HeaderKeys::RpHeaderResponseKey => "rp_response_header",
            HeaderKeys::SpaHeaderRequestKey => "spa_request_header",
            HeaderKeys::BeHeaderResponseKey => "be_response_header",
            HeaderKeys::FpHeaderRequestKey => "fp_request_header",
            HeaderKeys::IntHeaderRequestKey => "int_request_header",
        }
    }

    pub fn placeholder_value(&self) -> (r: &'static str)
        ensures
            match self {
                HeaderKeys::RpHeaderRequestKey => r@ == "added in ReverseProxy"@,
                HeaderKeys::RpHeaderResponseKey => r@ == "added in ReverseProxy"@,
                _ => r@ == ""@,
            },
    {
        match self {
            HeaderKeys::RpHeaderRequestKey => "added in ReverseProxy",
            HeaderKeys::RpHeaderResponseKey => "added in ReverseProxy",
            _ => "",
        }
    }
}

pub struct InitEncryptedTunnelRequest {
    pub int_request_body: String,
}

impl InitEncryptedTunnelRequest {
    pub fn to_bytes(&self) -> (r: Vec<u8>)
        ensures
            r@ == ser_str_obj(k_int_request_body(), self.int_request_body@),
    {
        let k = key_int_request_body();
        str_obj_to_bytes(&k, &self.int_request_body)
    }
}

pub struct InitTunnelRequestToBackend {
    pub success: bool,
}

impl InitTunnelRequestToBackend {
    pub fn to_bytes(&self) -> (r: Vec<u8>)
        ensures
            r@ == ser_key(k_success(), true) + ser_bool(self.success) + seq![RBRACE],
    {
        let mut out: Vec<u8> = Vec::new();
        let k = key_success();
        emit_key(&mut out, k.as_slice(), true);
        emit_bool(&mut out, self.success);
        out.push(RBRACE);
        proof {
            assert(out@ =~= ser_key(k_success(), true) + ser_bool(self.success) + seq![RBRACE]);
        }
        out
    }
}

pub struct InitEncryptedTunnelResponse {
    pub rp_response_body: String,
}

impl InitEncryptedTunnelResponse {
    pub fn to_bytes(&self) -> (r: Vec<u8>)
        ensures
            r@ == ser_str_obj(k_rp_response_body(), self.rp_response_body@),
    {
        let k = key_rp_response_body();
        str_obj_to_bytes(&k, &self.rp_response_body)
    }
}

pub struct ProxyRequest {
    pub int_request_body: String,
    pub spa_request_body: String,
}

impl ProxyRequest {
    pub fn to_bytes(&self) -> (r: Vec<u8>)
        ensures
            r@ == ser_str_obj2(
                k_int_request_body(),
                self.int_request_body@,
                k_spa_request_body(),
                self.spa_request_body@,
            ),
    {
        let k1 = key_int_request_body();
        let k2 = key_spa_request_body();
        str_obj2_to_bytes(&k1, &self.int_request_body, &k2, &self.spa_request_body)
    }
}

pub struct ProxyRequestToBackend {
    pub spa_request_body: String,
}

impl ProxyRequestToBackend {
    pub fn to_bytes(&self) -> (r: Vec<u8>)
        ensures
            r@ == ser_str_obj(k_spa_request_body(), self.spa_request_body@),
    {
        let k = key_spa_request_body();
        str_obj_to_bytes(&k, &self.spa_request_body)
    }
}

pub struct ProxyResponseFromBackend {
    pub be_response_body: String,
}

impl ProxyResponseFromBackend {
    pub fn to_bytes(&self) -> (r: Vec<u8>)
        ensures
            r@ == ser_str_obj(k_be_response_body(), self.be_response_body@),
    {
        let k = key_be_response_body();
        str_obj_to_bytes(&k, &self.be_response_body)
    }
}

pub struct ProxyResponse {
    pub be_response_body: String,
    pub rp_response_body: String,
}

impl ProxyResponse {
    pub fn to_bytes(&self) -> (r: Vec<u8>)
        ensures
            r@ == ser_str_obj2(
                k_be_response_body(),
                self.be_response_body@,
                k_rp_response_body(),
                self.rp_response_body@,
            ),
    {
        let k1 = key_be_response_body();
        let k2 = key_rp_response_body();
        str_obj2_to_bytes(&k1, &self.be_response_body, &k2, &self.rp_response_body)
    }
}

/// The draft shared handler: header bookkeeping common to both directions.
pub struct CommonHandler {}

impl CommonHandler {
    /// Record the backend's response headers on the context, add the node's
    /// marker header, and pin the content length.
    pub fn create_response_headers(
        headers: &Vec<(String, String)>,
        ctx: &mut Layer8Context,
        custom_header: &str,
        content_length: usize,
    )
        requires
            old(ctx).wf(),
        ensures
            final(ctx).wf(),
            final(ctx).response.header@.contains_key("rp_response_header"@) && final(ctx).response.header@["rp_response_header"@]@ == custom_header@,
            final(ctx).response.header@.contains_key("content-length"@) && final(ctx).response.header@["content-length"@]@ == dec_str(content_length as u64),
            forall|i: int|
                0 <= i < headers@.len() ==> final(ctx).response.header@.contains_key(
                    #[trigger] headers@[i].0@,
                ),
            forall|i: int|
                0 <= i < headers@.len() && (#[trigger] headers@[i].0@) != "rp_response_header"@
                    && headers@[i].0@ != "content-length"@ && (forall|j: int|
                    i < j < headers@.len() ==> headers@[j].0@ != headers@[i].0@) ==> final(ctx).response.header@[headers@[i].0@]@ == headers@[i].1@,
    {
        proof {
            broadcast use vstd::string::group_string_axioms;

            reveal_strlit("rp_response_header");
            reveal_strlit("content-length");
            assert("rp_response_header"@.len() == 18);
            assert("content-length"@.len() == 14);
        }
        let mut i: usize = 0;
        while i < headers.len()
            invariant
                i <= headers@.len(),
                ctx.wf(),
                forall|a: int|
                    0 <= a < i ==> ctx.response.header@.contains_key(#[trigger] headers@[a].0@),
                forall|a: int|
                    0 <= a < i && (forall|j: int|
                        a < j < i ==> headers@[j].0@ != (#[trigger] headers@[a].0@))
                        ==> ctx.response.header@[headers@[a].0@]@ == headers@[a].1@,
            decreases headers@.len() - i,
        {
            let entry = &headers[i];
            ctx.insert_response_header(entry.0.as_str(), entry.1.as_str());
            i = i + 1;
        }
        ctx.insert_response_header("rp_response_header", custom_header);
        let cl = u64_to_string(content_length as u64);
        ctx.insert_response_header("content-length", cl.as_str());
        proof {
            broadcast use vstd::string::group_string_axioms;

            reveal_strlit("rp_response_header");
            reveal_strlit("content-length");
            assert("rp_response_header"@.len() == 18);
            assert("content-length"@.len() == 14);
            assert("rp_response_header"@ != "content-length"@);
        }
    }

    /// Build the header pairs for a request forwarded to the backend: the
    /// incoming pairs minus the hop-local ones, plus the node's marker, the
    /// content length and a JSON content type.
    pub fn create_forward_request_headers(
        headers: &Vec<(String, String)>,
        custom_header: &str,
        content_length: usize,
    ) -> (r: Vec<(String, String)>)
        ensures
            forall|i: int|
                0 <= i < r@.len() ==> (#[trigger] r@[i].0@) != "int_request_header"@ && r@[i].0@
                    != "fp_request_header"@,
            r@.len() >= 3,
            r@[r@.len() - 3].0@ == "rp_request_header"@ && r@[r@.len() - 3].1@ == custom_header@,
            r@[r@.len() - 2].0@ == "content-length"@ && r@[r@.len() - 2].1@ == dec_str(
                content_length as u64,
            ),
            r@[r@.len() - 1].0@ == "content-type"@ && r@[r@.len() - 1].1@ == "application/json"@,
            forall|i: int|
                0 <= i < headers@.len() && (#[trigger] headers@[i].0@) != "int_request_header"@
                    && headers@[i].0@ != "fp_request_header"@ ==> exists|j: int|
                    0 <= j < r@.len() && (#[trigger] r@[j].0@) == headers@[i].0@ && r@[j].1@
                        == headers@[i].1@,
    {
        proof {
            broadcast use vstd::string::group_string_axioms;

            reveal_strlit("int_request_header");
            reveal_strlit("fp_request_header");
            reveal_strlit("rp_request_header");
            reveal_strlit("content-length");
            reveal_strlit("content-type");
            assert("int_request_header"@.len() == 18);
            assert("fp_request_header"@.len() == 17);
            assert("rp_request_header"@.len() == 17);
            assert("rp_request_header"@[0] == 'r');
            assert("fp_request_header"@[0] == 'f');
            assert("content-length"@.len() == 14);
            assert("content-type"@.len() == 12);
        }
        let mut r: Vec<(String, String)> = Vec::new();
        let mut i: usize = 0;
        while i < headers.len()
            invariant
                i <= headers@.len(),
                forall|j: int|
                    0 <= j < r@.len() ==> (#[trigger] r@[j].0@) != "int_request_header"@
                        && r@[j].0@ != "fp_request_header"@,
                forall|a: int|
                    0 <= a < i && (#[trigger] headers@[a].0@) != "int_request_header"@
                        && headers@[a].0@ != "fp_request_header"@ ==> exists|j: int|
                        0 <= j < r@.len() && (#[trigger] r@[j].0@) == headers@[a].0@ && r@[j].1@
                            == headers@[a].1@,
            decreases headers@.len() - i,
        {
            let entry = &headers[i];
            let skip_int = str_eq(entry.0.as_str(), "int_request_header");
            let skip_fp = str_eq(entry.0.as_str(), "fp_request_header");
            let ghost before = r@;
            if !skip_int && !skip_fp {
                r.push((entry.0.clone(), entry.1.clone()));
                proof {
                    assert(r@[r@.len() - 1].0@ == headers@[i as int].0@);
                    assert(r@[r@.len() - 1].1@ == headers@[i as int].1@);
                }
            }
            proof {
                assert forall|a: int|
                    0 <= a < i + 1 && (#[trigger] headers@[a].0@) != "int_request_header"@
                        && headers@[a].0@ != "fp_request_header"@ implies exists|j: int|
                        0 <= j < r@.len() && (#[trigger] r@[j].0@) == headers@[a].0@ && r@[j].1@
                            == headers@[a].1@ by {
                    if a < i {
                        let j = choose|j: int|
                            0 <= j < before.len() && (#[trigger] before[j].0@) == headers@[a].0@
                                && before[j].1@ == headers@[a].1@;
                        assert(r@[j].0@ == headers@[a].0@ && r@[j].1@ == headers@[a].1@);
                    } else {
                        assert(r@[r@.len() - 1].0@ == headers@[a].0@ && r@[r@.len() - 1].1@
                            == headers@[a].1@);
                    }
                }
            }
            i = i + 1;
        }
        let ghost kept = r@;
        r.push(("rp_request_header".to_owned(), custom_header.to_owned()));
        let cl = u64_to_string(content_length as u64);
        r.push(("content-length".to_owned(), cl));
        r.push(("content-type".to_owned(), "application/json".to_owned()));
        proof {
            assert forall|a: int|
                0 <= a < headers@.len() && (#[trigger] headers@[a].0@) != "int_request_header"@
                    && headers@[a].0@ != "fp_request_header"@ implies exists|j: int|
                    0 <= j < r@.len() && (#[trigger] r@[j].0@) == headers@[a].0@ && r@[j].1@
                        == headers@[a].1@ by {
                let j = choose|j: int|
                    0 <= j < kept.len() && (#[trigger] kept[j].0@) == headers@[a].0@ && kept[j].1@
                        == headers@[a].1@;
                assert(r@[j].0@ == headers@[a].0@ && r@[j].1@ == headers@[a].1@);
            }
        }
        r
    }
}

} // verus!
