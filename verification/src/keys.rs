//! The fixed JSON object keys of every message shape, as byte sequences.

use vstd::prelude::*;

verus! {

pub open spec fn k_nonce() -> Seq<u8> {
    seq![110u8, 111, 110, 99, 101]
}

pub fn key_nonce() -> (r: Vec<u8>)
    ensures
        r@ == k_nonce(),
{
    let r: Vec<u8> = vec![110u8, 111, 110, 99, 101];
    proof {
        assert(r@ =~= k_nonce());
    }
    r
}

pub open spec fn k_data() -> Seq<u8> {
    seq![100u8, 97, 116, 97]
}

pub fn key_data() -> (r: Vec<u8>)
    ensures
        r@ == k_data(),
{
    let r: Vec<u8> = vec![100u8, 97, 116, 97];
    proof {
        assert(r@ =~= k_data());
    }
    r
}

pub open spec fn k_public_key() -> Seq<u8> {
    seq![112u8, 117, 98, 108, 105, 99, 95, 107, 101, 121]
}

pub fn key_public_key() -> (r: Vec<u8>)
    ensures
        r@ == k_public_key(),
{
    let r: Vec<u8> = vec![112u8, 117, 98, 108, 105, 99, 95, 107, 101, 121];
    proof {
        assert(r@ =~= k_public_key());
    }
    r
}

pub open spec fn k_t_b_hash() -> Seq<u8> {
    seq![116u8, 95, 98, 95, 104, 97, 115, 104]
}

pub fn key_t_b_hash() -> (r: Vec<u8>)
    ensures
        r@ == k_t_b_hash(),
{
    let r: Vec<u8> = vec![116u8, 95, 98, 95, 104, 97, 115, 104];
    proof {
        assert(r@ =~= k_t_b_hash());
    }
    r
}

pub open spec fn k_jwt1() -> Seq<u8> {
    seq![106u8, 119, 116, 49]
}

pub fn key_jwt1() -> (r: Vec<u8>)
    ensures
        r@ == k_jwt1(),
{
    let r: Vec<u8> = vec![106u8, 119, 116, 49];
    proof {
        assert(r@ =~= k_jwt1());
    }
    r
}

pub open spec fn k_jwt2() -> Seq<u8> {
    seq![106u8, 119, 116, 50]
}

pub fn key_jwt2() -> (r: Vec<u8>)
    ensures
        r@ == k_jwt2(),
{
    let r: Vec<u8> = vec![106u8, 119, 116, 50];
    proof {
        assert(r@ =~= k_jwt2());
    }
    r
}

pub open spec fn k_server_id() -> Seq<u8> {
    seq![115u8, 101, 114, 118, 101, 114, 95, 105, 100]
}

pub fn key_server_id() -> (r: Vec<u8>)
    ensures
        r@ == k_server_id(),
{
    let r: Vec<u8> = vec![115u8, 101, 114, 118, 101, 114, 95, 105, 100];
    proof {
        assert(r@ =~= k_server_id());
    }
    r
}

pub open spec fn k_ephemeral_public_key() -> Seq<u8> {
    seq![101u8, 112, 104, 101, 109, 101, 114, 97, 108, 95, 112, 117, 98, 108, 105, 99, 95, 107, 101, 121]
}

pub fn key_ephemeral_public_key() -> (r: Vec<u8>)
    ensures
        r@ == k_ephemeral_public_key(),
{
    let r: Vec<u8> = vec![101u8, 112, 104, 101, 109, 101, 114, 97, 108, 95, 112, 117, 98, 108, 105, 99, 95, 107, 101, 121];
    proof {
        assert(r@ =~= k_ephemeral_public_key());
    }
    r
}

pub open spec fn k_error() -> Seq<u8> {
    seq![101u8, 114, 114, 111, 114]
}

pub fn key_error() -> (r: Vec<u8>)
    ensures
        r@ == k_error(),
{
    let r: Vec<u8> = vec![101u8, 114, 114, 111, 114];
    proof {
        assert(r@ =~= k_error());
    }
    r
}

pub open spec fn k_fp_healthcheck_success() -> Seq<u8> {
    seq![102u8, 112, 95, 104, 101, 97, 108, 116, 104, 99, 104, 101, 99, 107, 95, 115, 117, 99, 99, 101, 115, 115]
}

pub fn key_fp_healthcheck_success() -> (r: Vec<u8>)
    ensures
        r@ == k_fp_healthcheck_success(),
{
    let r: Vec<u8> = vec![102u8, 112, 95, 104, 101, 97, 108, 116, 104, 99, 104, 101, 99, 107, 95, 115, 117, 99, 99, 101, 115, 115];
    proof {
        assert(r@ =~= k_fp_healthcheck_success());
    }
    r
}

pub open spec fn k_fp_healthcheck_error() -> Seq<u8> {
    seq![102u8, 112, 95, 104, 101, 97, 108, 116, 104, 99, 104, 101, 99, 107, 95, 101, 114, 114, 111, 114]
}

pub fn key_fp_healthcheck_error() -> (r: Vec<u8>)
    ensures
        r@ == k_fp_healthcheck_error(),
{
    let r: Vec<u8> = vec![102u8, 112, 95, 104, 101, 97, 108, 116, 104, 99, 104, 101, 99, 107, 95, 101, 114, 114, 111, 114];
    proof {
        assert(r@ =~= k_fp_healthcheck_error());
    }
    r
}

pub open spec fn k_rp_healthcheck_success() -> Seq<u8> {
    seq![114u8, 112, 95, 104, 101, 97, 108, 116, 104, 99, 104, 101, 99, 107, 95, 115, 117, 99, 99, 101, 115, 115]
}

pub fn key_rp_healthcheck_success() -> (r: Vec<u8>)
    ensures
        r@ == k_rp_healthcheck_success(),
{
    let r: Vec<u8> = vec![114u8, 112, 95, 104, 101, 97, 108, 116, 104, 99, 104, 101, 99, 107, 95, 115, 117, 99, 99, 101, 115, 115];
    proof {
        assert(r@ =~= k_rp_healthcheck_success());
    }
    r
}

pub open spec fn k_rp_healthcheck_error() -> Seq<u8> {
    seq![114u8, 112, 95, 104, 101, 97, 108, 116, 104, 99, 104, 101, 99, 107, 95, 101, 114, 114, 111, 114]
}

pub fn key_rp_healthcheck_error() -> (r: Vec<u8>)
    ensures
        r@ == k_rp_healthcheck_error(),
{
    let r: Vec<u8> = vec![114u8, 112, 95, 104, 101, 97, 108, 116, 104, 99, 104, 101, 99, 107, 95, 101, 114, 114, 111, 114];
    proof {
        assert(r@ =~= k_rp_healthcheck_error());
    }
    r
}

pub open spec fn k_method() -> Seq<u8> {
    seq![109u8, 101, 116, 104, 111, 100]
}

pub fn key_method() -> (r: Vec<u8>)
    ensures
        r@ == k_method(),
{
    let r: Vec<u8> = vec![109u8, 101, 116, 104, 111, 100];
    proof {
        assert(r@ =~= k_method());
    }
    r
}

pub open spec fn k_uri() -> Seq<u8> {
    seq![117u8, 114, 105]
}

pub fn key_uri() -> (r: Vec<u8>)
    ensures
        r@ == k_uri(),
{
    let r: Vec<u8> = vec![117u8, 114, 105];
    proof {
        assert(r@ =~= k_uri());
    }
    r
}

pub open spec fn k_headers() -> Seq<u8> {
    seq![104u8, 101, 97, 100, 101, 114, 115]
}

pub fn key_headers() -> (r: Vec<u8>)
    ensures
        r@ == k_headers(),
{
    let r: Vec<u8> = vec![104u8, 101, 97, 100, 101, 114, 115];
    proof {
        assert(r@ =~= k_headers());
    }
    r
}

pub open spec fn k_body() -> Seq<u8> {
    seq![98u8, 111, 100, 121]
}

pub fn key_body() -> (r: Vec<u8>)
    ensures
        r@ == k_body(),
{
    let r: Vec<u8> = vec![98u8, 111, 100, 121];
    proof {
        assert(r@ =~= k_body());
    }
    r
}

pub open spec fn k_status() -> Seq<u8> {
    seq![115u8, 116, 97, 116, 117, 115]
}

pub fn key_status() -> (r: Vec<u8>)
    ensures
        r@ == k_status(),
{
    let r: Vec<u8> = vec![115u8, 116, 97, 116, 117, 115];
    proof {
        assert(r@ =~= k_status());
    }
    r
}

pub open spec fn k_status_text() -> Seq<u8> {
    seq![115u8, 116, 97, 116, 117, 115, 95, 116, 101, 120, 116]
}

pub fn key_status_text() -> (r: Vec<u8>)
    ensures
        r@ == k_status_text(),
{
    let r: Vec<u8> = vec![115u8, 116, 97, 116, 117, 115, 95, 116, 101, 120, 116];
    proof {
        assert(r@ =~= k_status_text());
    }
    r
}

pub open spec fn k_ok() -> Seq<u8> {
    seq![111u8, 107]
}

pub fn key_ok() -> (r: Vec<u8>)
    ensures
        r@ == k_ok(),
{
    let r: Vec<u8> = vec![111u8, 107];
    proof {
        assert(r@ =~= k_ok());
    }
    r
}

pub open spec fn k_url() -> Seq<u8> {
    seq![117u8, 114, 108]
}

pub fn key_url() -> (r: Vec<u8>)
    ensures
        r@ == k_url(),
{
    let r: Vec<u8> = vec![117u8, 114, 108];
    proof {
        assert(r@ =~= k_url());
    }
    r
}

pub open spec fn k_redirected() -> Seq<u8> {
    seq![114u8, 101, 100, 105, 114, 101, 99, 116, 101, 100]
}

pub fn key_redirected() -> (r: Vec<u8>)
    ensures
        r@ == k_redirected(),
{
    let r: Vec<u8> = vec![114u8, 101, 100, 105, 114, 101, 99, 116, 101, 100];
    proof {
        assert(r@ =~= k_redirected());
    }
    r
}

pub open spec fn k_x509_certificate() -> Seq<u8> {
    seq![120u8, 53, 48, 57, 95, 99, 101, 114, 116, 105, 102, 105, 99, 97, 116, 101]
}

pub fn key_x509_certificate() -> (r: Vec<u8>)
    ensures
        r@ == k_x509_certificate(),
{
    let r: Vec<u8> = vec![120u8, 53, 48, 57, 95, 99, 101, 114, 116, 105, 102, 105, 99, 97, 116, 101];
    proof {
        assert(r@ =~= k_x509_certificate());
    }
    r
}

pub open spec fn k_aud() -> Seq<u8> {
    seq![97u8, 117, 100]
}

pub fn key_aud() -> (r: Vec<u8>)
    ensures
        r@ == k_aud(),
{
    let r: Vec<u8> = vec![97u8, 117, 100];
    proof {
        assert(r@ =~= k_aud());
    }
    r
}

pub open spec fn k_exp() -> Seq<u8> {
    seq![101u8, 120, 112]
}

pub fn key_exp() -> (r: Vec<u8>)
    ensures
        r@ == k_exp(),
{
    let r: Vec<u8> = vec![101u8, 120, 112];
    proof {
        assert(r@ =~= k_exp());
    }
    r
}

pub open spec fn k_iat() -> Seq<u8> {
    seq![105u8, 97, 116]
}

pub fn key_iat() -> (r: Vec<u8>)
    ensures
        r@ == k_iat(),
{
    let r: Vec<u8> = vec![105u8, 97, 116];
    proof {
        assert(r@ =~= k_iat());
    }
    r
}

pub open spec fn k_iss() -> Seq<u8> {
    seq![105u8, 115, 115]
}

pub fn key_iss() -> (r: Vec<u8>)
    ensures
        r@ == k_iss(),
{
    let r: Vec<u8> = vec![105u8, 115, 115];
    proof {
        assert(r@ =~= k_iss());
    }
    r
}

pub open spec fn k_jti() -> Seq<u8> {
    seq![106u8, 116, 105]
}

pub fn key_jti() -> (r: Vec<u8>)
    ensures
        r@ == k_jti(),
{
    let r: Vec<u8> = vec![106u8, 116, 105];
    proof {
        assert(r@ =~= k_jti());
    }
    r
}

pub open spec fn k_nbf() -> Seq<u8> {
    seq![110u8, 98, 102]
}

pub fn key_nbf() -> (r: Vec<u8>)
    ensures
        r@ == k_nbf(),
{
    let r: Vec<u8> = vec![110u8, 98, 102];
    proof {
        assert(r@ =~= k_nbf());
    }
    r
}

pub open spec fn k_sid() -> Seq<u8> {
    seq![115u8, 105, 100]
}

pub fn key_sid() -> (r: Vec<u8>)
    ensures
        r@ == k_sid(),
{
    let r: Vec<u8> = vec![115u8, 105, 100];
    proof {
        assert(r@ =~= k_sid());
    }
    r
}

pub open spec fn k_sub() -> Seq<u8> {
    seq![115u8, 117, 98]
}

pub fn key_sub() -> (r: Vec<u8>)
    ensures
        r@ == k_sub(),
{
    let r: Vec<u8> = vec![115u8, 117, 98];
    proof {
        assert(r@ =~= k_sub());
    }
    r
}

pub open spec fn k_upstream() -> Seq<u8> {
    seq![117u8, 112, 115, 116, 114, 101, 97, 109]
}

pub fn key_upstream() -> (r: Vec<u8>)
    ensures
        r@ == k_upstream(),
{
    let r: Vec<u8> = vec![117u8, 112, 115, 116, 114, 101, 97, 109];
    proof {
        assert(r@ =~= k_upstream());
    }
    r
}

pub open spec fn k_int_request_body() -> Seq<u8> {
    seq![105u8, 110, 116, 95, 114, 101, 113, 117, 101, 115, 116, 95, 98, 111, 100, 121]
}

pub fn key_int_request_body() -> (r: Vec<u8>)
    ensures
        r@ == k_int_request_body(),
{
    let r: Vec<u8> = vec![105u8, 110, 116, 95, 114, 101, 113, 117, 101, 115, 116, 95, 98, 111, 100, 121];
    proof {
        assert(r@ =~= k_int_request_body());
    }
    r
}

pub open spec fn k_spa_request_body() -> Seq<u8> {
    seq![115u8, 112, 97, 95, 114, 101, 113, 117, 101, 115, 116, 95, 98, 111, 100, 121]
}

pub fn key_spa_request_body() -> (r: Vec<u8>)
    ensures
        r@ == k_spa_request_body(),
{
    let r: Vec<u8> = vec![115u8, 112, 97, 95, 114, 101, 113, 117, 101, 115, 116, 95, 98, 111, 100, 121];
    proof {
        assert(r@ =~= k_spa_request_body());
    }
    r
}

pub open spec fn k_be_response_body() -> Seq<u8> {
    seq![98u8, 101, 95, 114, 101, 115, 112, 111, 110, 115, 101, 95, 98, 111, 100, 121]
}

pub fn key_be_response_body() -> (r: Vec<u8>)
    ensures
        r@ == k_be_response_body(),
{
    let r: Vec<u8> = vec![98u8, 101, 95, 114, 101, 115, 112, 111, 110, 115, 101, 95, 98, 111, 100, 121];
    proof {
        assert(r@ =~= k_be_response_body());
    }
    r
}

pub open spec fn k_rp_response_body() -> Seq<u8> {
    seq![114u8, 112, 95, 114, 101, 115, 112, 111, 110, 115, 101, 95, 98, 111, 100, 121]
}

pub fn key_rp_response_body() -> (r: Vec<u8>)
    ensures
        r@ == k_rp_response_body(),
{
    let r: Vec<u8> = vec![114u8, 112, 95, 114, 101, 115, 112, 111, 110, 115, 101, 95, 98, 111, 100, 121];
    proof {
        assert(r@ =~= k_rp_response_body());
    }
    r
}

pub open spec fn k_success() -> Seq<u8> {
    seq![115u8, 117, 99, 99, 101, 115, 115]
}

pub fn key_success() -> (r: Vec<u8>)
    ensures
        r@ == k_success(),
{
    let r: Vec<u8> = vec![115u8, 117, 99, 99, 101, 115, 115];
    proof {
        assert(r@ =~= k_success());
    }
    r
}

} // verus!
